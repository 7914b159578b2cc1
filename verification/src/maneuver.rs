//! Acceptance of a commanded burn sequence.
//!
//! A sequence is accepted whole or not at all. Its burns are examined in
//! order, and the first burn that fails a check rejects the sequence. A
//! sequence that passes is queued at once when a ground station sees the
//! satellite, and is otherwise held for uplink at the next contact (see
//! `crate::uplink`). The
//! physical checks of each burn (its timing against the clock and the
//! previous burn, its delta-v and the fuel it needs) are assessed by the
//! caller for the state the satellite would be in after the burns before it.

use vstd::prelude::*;

use crate::catalog::Catalog;
use crate::ids::{api_id, parse_api_id};

verus! {

/// What the caller found of one burn.
#[derive(Clone, Copy, Debug, PartialEq, Eq, Structural)]
pub struct BurnAssessment {
    /// Its burn time could be read.
    pub readable: bool,
    /// It is commanded at least the communication latency after now.
    pub after_latency: bool,
    /// It respects the thruster cooldown after the previous burn.
    pub cooldown_clear: bool,
    /// Its delta-v does not exceed the per-burn maximum.
    pub within_delta_v: bool,
    /// The satellite keeps at least its dry mass after the burn.
    pub fuel_sufficient: bool,
}

/// Why a burn was refused.
#[derive(Clone, Copy, Debug, PartialEq, Eq, Structural)]
pub enum BurnRejection {
    InvalidTimestamp,
    Latency,
    Cooldown,
    ExcessDeltaV,
    InsufficientFuel,
}

/// The answer to a maneuver request.
#[derive(Clone, Copy, Debug, PartialEq, Eq, Structural)]
pub enum ScheduleVerdict {
    /// The target id does not name a satellite.
    NotSatellite,
    /// No catalogued object carries the target's numeric id.
    NotFound,
    /// Burn `index` of the sequence failed a check; `in_contact` says
    /// whether a ground station saw the satellite.
    Rejected { index: usize, reason: BurnRejection, in_contact: bool },
    /// Every burn passed and a ground station sees the satellite: the
    /// sequence is queued.
    Scheduled,
    /// Every burn passed but no ground station sees the satellite: the
    /// sequence is held for uplink at the next contact.
    Held,
}

/// The first check that a burn fails, in the order in which they are made.
pub open spec fn burn_rejection(a: BurnAssessment) -> Option<BurnRejection> {
    if !a.readable {
        Some(BurnRejection::InvalidTimestamp)
    } else if !a.after_latency {
        Some(BurnRejection::Latency)
    } else if !a.cooldown_clear {
        Some(BurnRejection::Cooldown)
    } else if !a.within_delta_v {
        Some(BurnRejection::ExcessDeltaV)
    } else if !a.fuel_sufficient {
        Some(BurnRejection::InsufficientFuel)
    } else {
        None
    }
}

pub open spec fn burn_passes(a: BurnAssessment) -> bool {
    burn_rejection(a) is None
}

/// The verdict on a sequence once its target is known to exist: the first
/// failing burn rejects it; otherwise it is scheduled with line of sight and
/// held without.
pub open spec fn sequence_verdict(has_los: bool, burns: Seq<BurnAssessment>) -> ScheduleVerdict {
    if forall|k: int| 0 <= k < burns.len() ==> burn_passes(#[trigger] burns[k]) {
        if has_los {
            ScheduleVerdict::Scheduled
        } else {
            ScheduleVerdict::Held
        }
    } else {
        let k = choose|k: int|
            0 <= k < burns.len() && !burn_passes(#[trigger] burns[k]) && forall|j: int|
                0 <= j < k ==> burn_passes(#[trigger] burns[j]);
        ScheduleVerdict::Rejected {
            index: k as usize,
            reason: burn_rejection(burns[k]).unwrap(),
            in_contact: has_los,
        }
    }
}

/// Whether a ground station was in view, as the reply reports it.
pub open spec fn reported_los(v: ScheduleVerdict) -> bool {
    match v {
        ScheduleVerdict::NotSatellite | ScheduleVerdict::NotFound | ScheduleVerdict::Held => false,
        ScheduleVerdict::Rejected { in_contact, .. } => in_contact,
        ScheduleVerdict::Scheduled => true,
    }
}

/// Whether fuel sufficed, as the reply reports it.
pub open spec fn reported_fuel(v: ScheduleVerdict) -> bool {
    match v {
        ScheduleVerdict::NotSatellite | ScheduleVerdict::NotFound => false,
        ScheduleVerdict::Rejected { reason, .. } => match reason {
            BurnRejection::Latency | BurnRejection::ExcessDeltaV => true,
            _ => false,
        },
        ScheduleVerdict::Scheduled | ScheduleVerdict::Held => true,
    }
}

/// Which mass the reply reports as remaining.
#[derive(Clone, Copy, Debug, PartialEq, Eq, Structural)]
pub enum ReportedMass {
    /// No mass: the target was not identified.
    Zero,
    /// The mass before burn `index`, after the burns before it.
    BeforeBurn(usize),
    /// The mass after every burn of the sequence.
    AfterSequence,
}

pub open spec fn reported_mass(v: ScheduleVerdict) -> ReportedMass {
    match v {
        ScheduleVerdict::NotSatellite | ScheduleVerdict::NotFound => ReportedMass::Zero,
        ScheduleVerdict::Rejected { index, .. } => ReportedMass::BeforeBurn(index),
        ScheduleVerdict::Scheduled | ScheduleVerdict::Held => ReportedMass::AfterSequence,
    }
}

/// The HTTP status code of the reply.
pub open spec fn schedule_http_code(v: ScheduleVerdict) -> u16 {
    match v {
        ScheduleVerdict::NotFound => 404,
        ScheduleVerdict::Scheduled | ScheduleVerdict::Held => 202,
        _ => 400,
    }
}

/// The status text of the reply. `burn_id` names the rejected burn;
/// `detail` is the timestamp error of an unreadable burn, or the delta-v
/// comparison of an excessive one (such as "(0.0200 > 0.0150 km/s)").
pub open spec fn schedule_status_text(v: ScheduleVerdict, burn_id: Seq<char>, detail: Seq<char>) -> Seq<char> {
    match v {
        ScheduleVerdict::NotSatellite => "REJECTED: Target is not a satellite"@,
        ScheduleVerdict::NotFound => "REJECTED: Satellite not found"@,
        ScheduleVerdict::Scheduled => "SCHEDULED"@,
        ScheduleVerdict::Held => "HELD: Awaiting ground station contact"@,
        ScheduleVerdict::Rejected { reason, .. } => match reason {
            BurnRejection::InvalidTimestamp => "REJECTED: "@ + detail,
            BurnRejection::Latency => "REJECTED: Burn '"@ + burn_id + "' violates 10s latency constraint"@,
            BurnRejection::Cooldown => "REJECTED: Burn '"@ + burn_id + "' violates 600s thruster cooldown"@,
            BurnRejection::ExcessDeltaV => "REJECTED: Burn '"@ + burn_id + "' exceeds max Δv "@ + detail,
            BurnRejection::InsufficientFuel => "REJECTED: Burn '"@ + burn_id + "' — insufficient fuel"@,
        },
    }
}

/// Finds the satellite that a maneuver request targets: its numeric id and
/// catalogue index. The id must name a satellite (`SAT` prefix) and its
/// numeric id must be catalogued.
pub fn resolve_target(catalog: &Catalog, satellite_id: &str) -> (r: Result<(u32, usize), ScheduleVerdict>)
    requires
        catalog.wf(),
    ensures
        !api_id(satellite_id@).1 ==> r == Err::<(u32, usize), ScheduleVerdict>(ScheduleVerdict::NotSatellite),
        api_id(satellite_id@).1 && !catalog@.holds(api_id(satellite_id@).0) ==> r == Err::<
            (u32, usize),
            ScheduleVerdict,
        >(ScheduleVerdict::NotFound),
        api_id(satellite_id@).1 && catalog@.holds(api_id(satellite_id@).0) ==> r == Ok::<
            (u32, usize),
            ScheduleVerdict,
        >((api_id(satellite_id@).0, catalog@.index_of(api_id(satellite_id@).0) as usize)),
{
    let (numeric_id, is_sat) = parse_api_id(satellite_id);
    if !is_sat {
        return Err(ScheduleVerdict::NotSatellite);
    }
    match catalog.index_of(numeric_id) {
        Some(i) => Ok((numeric_id, i)),
        None => Err(ScheduleVerdict::NotFound),
    }
}

/// The first failed check of one burn, if any.
pub fn assess_burn(a: BurnAssessment) -> (r: Option<BurnRejection>)
    ensures
        r == burn_rejection(a),
{
    if !a.readable {
        Some(BurnRejection::InvalidTimestamp)
    } else if !a.after_latency {
        Some(BurnRejection::Latency)
    } else if !a.cooldown_clear {
        Some(BurnRejection::Cooldown)
    } else if !a.within_delta_v {
        Some(BurnRejection::ExcessDeltaV)
    } else if !a.fuel_sufficient {
        Some(BurnRejection::InsufficientFuel)
    } else {
        None
    }
}

/// Judges a burn sequence whose target exists: the first failing burn
/// rejects it, else it is scheduled with line of sight and held without.
/// Entry `k` of `burns` describes burn `k` as it stands after burns `0..k`
/// were accepted; entries after the first failing one are not read.
pub fn judge_sequence(has_los: bool, burns: &Vec<BurnAssessment>) -> (r: ScheduleVerdict)
    ensures
        r == sequence_verdict(has_los, burns@),
{
    let mut k: usize = 0;
    while k < burns.len()
        invariant
            k <= burns@.len(),
            forall|j: int| 0 <= j < k ==> burn_passes(#[trigger] burns@[j]),
        decreases burns@.len() - k,
    {
        match assess_burn(burns[k]) {
            Some(reason) => {
                let ghost kk = k as int;
                assert(0 <= kk < burns@.len() && !burn_passes(burns@[kk]) && forall|j: int|
                    0 <= j < kk ==> burn_passes(#[trigger] burns@[j]));
                let ghost c = choose|c: int|
                    0 <= c < burns@.len() && !burn_passes(#[trigger] burns@[c]) && forall|j: int|
                        0 <= j < c ==> burn_passes(#[trigger] burns@[j]);
                assert(!burn_passes(burns@[kk]));
                assert(!(forall|j: int| 0 <= j < burns@.len() ==> burn_passes(#[trigger] burns@[j])));
                assert(c == kk) by {
                    if c < kk {
                        assert(burn_passes(burns@[c]));
                    } else if c > kk {
                        assert(burn_passes(burns@[kk]));
                    }
                }
                return ScheduleVerdict::Rejected { index: k, reason, in_contact: has_los };
            },
            None => {},
        }
        k = k + 1;
    }
    if has_los {
        ScheduleVerdict::Scheduled
    } else {
        ScheduleVerdict::Held
    }
}

impl ScheduleVerdict {
    /// Whether the reply reports a ground station in view.
    pub fn ground_station_los(&self) -> (r: bool)
        ensures
            r == reported_los(*self),
    {
        match self {
            ScheduleVerdict::NotSatellite | ScheduleVerdict::NotFound | ScheduleVerdict::Held => false,
            ScheduleVerdict::Rejected { in_contact, .. } => *in_contact,
            ScheduleVerdict::Scheduled => true,
        }
    }

    /// Whether the reply reports sufficient fuel.
    pub fn sufficient_fuel(&self) -> (r: bool)
        ensures
            r == reported_fuel(*self),
    {
        match self {
            ScheduleVerdict::NotSatellite | ScheduleVerdict::NotFound => false,
            ScheduleVerdict::Rejected { reason, .. } => match reason {
                BurnRejection::Latency | BurnRejection::ExcessDeltaV => true,
                _ => false,
            },
            ScheduleVerdict::Scheduled | ScheduleVerdict::Held => true,
        }
    }

    /// Which mass the reply reports as remaining.
    pub fn reported_mass(&self) -> (r: ReportedMass)
        ensures
            r == reported_mass(*self),
    {
        match self {
            ScheduleVerdict::NotSatellite | ScheduleVerdict::NotFound => ReportedMass::Zero,
            ScheduleVerdict::Rejected { index, .. } => ReportedMass::BeforeBurn(*index),
            ScheduleVerdict::Scheduled | ScheduleVerdict::Held => ReportedMass::AfterSequence,
        }
    }

    /// The HTTP status code of the reply: 202 scheduled or held, 404 unknown
    /// target, 400 otherwise.
    pub fn http_code(&self) -> (r: u16)
        ensures
            r == schedule_http_code(*self),
    {
        match self {
            ScheduleVerdict::NotFound => 404,
            ScheduleVerdict::Scheduled | ScheduleVerdict::Held => 202,
            _ => 400,
        }
    }

    /// The status text of the reply (see `schedule_status_text`).
    pub fn status_text(&self, burn_id: &str, detail: &str) -> (r: String)
        ensures
            r@ == schedule_status_text(*self, burn_id@, detail@),
    {
        match self {
            ScheduleVerdict::NotSatellite => "REJECTED: Target is not a satellite".to_owned(),
            ScheduleVerdict::NotFound => "REJECTED: Satellite not found".to_owned(),
            ScheduleVerdict::Scheduled => "SCHEDULED".to_owned(),
            ScheduleVerdict::Held => "HELD: Awaiting ground station contact".to_owned(),
            ScheduleVerdict::Rejected { reason, .. } => match reason {
                BurnRejection::InvalidTimestamp => {
                    let mut t = "REJECTED: ".to_owned();
                    t.append(detail);
                    t
                },
                BurnRejection::Latency => {
                    let mut t = "REJECTED: Burn '".to_owned();
                    t.append(burn_id);
                    t.append("' violates 10s latency constraint");
                    t
                },
                BurnRejection::Cooldown => {
                    let mut t = "REJECTED: Burn '".to_owned();
                    t.append(burn_id);
                    t.append("' violates 600s thruster cooldown");
                    t
                },
                BurnRejection::ExcessDeltaV => {
                    let mut t = "REJECTED: Burn '".to_owned();
                    t.append(burn_id);
                    t.append("' exceeds max Δv ");
                    t.append(detail);
                    t
                },
                BurnRejection::InsufficientFuel => {
                    let mut t = "REJECTED: Burn '".to_owned();
                    t.append(burn_id);
                    t.append("' — insufficient fuel");
                    t
                },
            },
        }
    }
}

/// The checks of a burn run in a fixed order and the first one it fails
/// decides: an unreadable burn time is rejected as such whatever else holds;
/// a readable one too soon after now for the latency; then the cooldown, the
/// delta-v limit and the fuel, in that order; a burn that passes every check
/// is not rejected, and only such a burn passes.
pub proof fn law_burn_checks_in_order(a: BurnAssessment)
    ensures
        !a.readable ==> burn_rejection(a) == Some(BurnRejection::InvalidTimestamp),
        a.readable && !a.after_latency ==> burn_rejection(a) == Some(BurnRejection::Latency),
        a.readable && a.after_latency && !a.cooldown_clear ==> burn_rejection(a) == Some(BurnRejection::Cooldown),
        a.readable && a.after_latency && a.cooldown_clear && !a.within_delta_v ==> burn_rejection(a) == Some(
            BurnRejection::ExcessDeltaV,
        ),
        a.readable && a.after_latency && a.cooldown_clear && a.within_delta_v && !a.fuel_sufficient
            ==> burn_rejection(a) == Some(BurnRejection::InsufficientFuel),
        burn_passes(a) <==> (a.readable && a.after_latency && a.cooldown_clear && a.within_delta_v
            && a.fuel_sufficient),
{
}

/// What each verdict replies: an accepted sequence (scheduled or held) is
/// answered 202 with sufficient fuel and the mass after every burn, with line
/// of sight exactly when scheduled; an unknown satellite 404 and any other
/// refusal 400; a refused target reports no line of sight, no fuel and no
/// mass; a rejected burn reports the mass before it, line of sight as found,
/// and sufficient fuel exactly when it failed on latency or delta-v.
pub proof fn law_reply_follows_verdict(v: ScheduleVerdict)
    ensures
        (schedule_http_code(v) == 202) <==> (v == ScheduleVerdict::Scheduled || v == ScheduleVerdict::Held),
        (schedule_http_code(v) == 404) <==> (v == ScheduleVerdict::NotFound),
        schedule_http_code(v) == 202 || schedule_http_code(v) == 404 || schedule_http_code(v) == 400,
        v == ScheduleVerdict::Scheduled ==> reported_los(v) && reported_fuel(v) && reported_mass(v)
            == ReportedMass::AfterSequence,
        v == ScheduleVerdict::Held ==> !reported_los(v) && reported_fuel(v) && reported_mass(v)
            == ReportedMass::AfterSequence,
        v == ScheduleVerdict::NotFound || v == ScheduleVerdict::NotSatellite ==> !reported_los(v) && !reported_fuel(v)
            && reported_mass(v) == ReportedMass::Zero,
        v matches ScheduleVerdict::Rejected { index, reason, in_contact } ==> {
            &&& reported_los(v) == in_contact
            &&& reported_mass(v) == ReportedMass::BeforeBurn(index)
            &&& reported_fuel(v) == (reason == BurnRejection::Latency || reason == BurnRejection::ExcessDeltaV)
        },
{
}

/// Each reply names its verdict. Every refusal begins with "REJECTED: ", and
/// an accepted sequence never does; a scheduled one reads "SCHEDULED" and a
/// held one begins "HELD"; a rejection for timing, cooldown, delta-v or fuel
/// quotes the rejected burn's id right after "REJECTED: Burn '", and one for
/// an unreadable time quotes the timestamp's error right after "REJECTED: ".
pub proof fn law_reply_text_says_verdict(v: ScheduleVerdict, burn_id: Seq<char>, detail: Seq<char>)
    ensures
        ({
            let t = schedule_status_text(v, burn_id, detail);
            let rejected = seq!['R', 'E', 'J', 'E', 'C', 'T', 'E', 'D', ':', ' '];
            &&& (v == ScheduleVerdict::NotSatellite || v == ScheduleVerdict::NotFound || v is Rejected)
                ==> t.len() >= 10 && t.take(10) == rejected
            &&& v == ScheduleVerdict::Scheduled ==> t == seq!['S', 'C', 'H', 'E', 'D', 'U', 'L', 'E', 'D']
            &&& v == ScheduleVerdict::Held ==> t.len() >= 4 && t.take(4) == seq!['H', 'E', 'L', 'D']
            &&& v == ScheduleVerdict::Scheduled || v == ScheduleVerdict::Held ==> !(t.len() >= 10 && t.take(10)
                == rejected)
            &&& v == ScheduleVerdict::NotSatellite ==> t != schedule_status_text(ScheduleVerdict::NotFound, burn_id, detail)
            &&& v matches ScheduleVerdict::Rejected { reason, .. } ==> (reason == BurnRejection::InvalidTimestamp
                ==> t.subrange(10, t.len() as int) == detail)
            &&& v matches ScheduleVerdict::Rejected { reason, .. } ==> (reason != BurnRejection::InvalidTimestamp
                ==> t.len() >= 16 + burn_id.len() && t.subrange(10, 16) == seq!['B', 'u', 'r', 'n', ' ', '\'']
                && t.subrange(16, 16 + burn_id.len() as int) == burn_id)
        }),
{
    reveal_strlit("REJECTED: Target is not a satellite");
    reveal_strlit("REJECTED: Satellite not found");
    reveal_strlit("SCHEDULED");
    reveal_strlit("HELD: Awaiting ground station contact");
    reveal_strlit("REJECTED: ");
    reveal_strlit("REJECTED: Burn '");
    reveal_strlit("' violates 10s latency constraint");
    reveal_strlit("' violates 600s thruster cooldown");
    reveal_strlit("' exceeds max Δv ");
    reveal_strlit("' — insufficient fuel");
    let t = schedule_status_text(v, burn_id, detail);
    let rejected = seq!['R', 'E', 'J', 'E', 'C', 'T', 'E', 'D', ':', ' '];
    let head = "REJECTED: Burn '"@;
    match v {
        ScheduleVerdict::NotSatellite => {
            assert(t.take(10) =~= rejected);
            assert(t.len() != schedule_status_text(ScheduleVerdict::NotFound, burn_id, detail).len());
        },
        ScheduleVerdict::NotFound => {
            assert(t.take(10) =~= rejected);
        },
        ScheduleVerdict::Scheduled => {
            assert(t =~= seq!['S', 'C', 'H', 'E', 'D', 'U', 'L', 'E', 'D']);
        },
        ScheduleVerdict::Held => {
            assert(t.take(4) =~= seq!['H', 'E', 'L', 'D']);
            assert(t[0] != rejected[0]);
            if t.len() >= 10 {
                assert(t.take(10)[0] != rejected[0]);
            }
        },
        ScheduleVerdict::Rejected { reason, .. } => {
            match reason {
                BurnRejection::InvalidTimestamp => {
                    assert(t.take(10) =~= rejected);
                    assert(t.subrange(10, t.len() as int) =~= detail);
                },
                BurnRejection::Latency => {
                    let tail = "' violates 10s latency constraint"@;
                    assert(t == head + burn_id + tail);
                    assert(t.take(10) =~= rejected);
                    assert(t.subrange(10, 16) =~= seq!['B', 'u', 'r', 'n', ' ', '\'']);
                    assert(t.subrange(16, 16 + burn_id.len() as int) =~= burn_id);
                },
                BurnRejection::Cooldown => {
                    let tail = "' violates 600s thruster cooldown"@;
                    assert(t == head + burn_id + tail);
                    assert(t.take(10) =~= rejected);
                    assert(t.subrange(10, 16) =~= seq!['B', 'u', 'r', 'n', ' ', '\'']);
                    assert(t.subrange(16, 16 + burn_id.len() as int) =~= burn_id);
                },
                BurnRejection::ExcessDeltaV => {
                    let tail = "' exceeds max Δv "@;
                    assert(t == head + burn_id + tail + detail);
                    assert(t.take(10) =~= rejected);
                    assert(t.subrange(10, 16) =~= seq!['B', 'u', 'r', 'n', ' ', '\'']);
                    assert(t.subrange(16, 16 + burn_id.len() as int) =~= burn_id);
                },
                BurnRejection::InsufficientFuel => {
                    let tail = "' — insufficient fuel"@;
                    assert(t == head + burn_id + tail);
                    assert(t.take(10) =~= rejected);
                    assert(t.subrange(10, 16) =~= seq!['B', 'u', 'r', 'n', ' ', '\'']);
                    assert(t.subrange(16, 16 + burn_id.len() as int) =~= burn_id);
                },
            }
        },
    }
}

/// All or nothing: a sequence is scheduled exactly when a ground station is
/// in view and every one of its burns passes every check, and held exactly
/// when every burn passes but no station is in view.
pub proof fn law_all_or_nothing(has_los: bool, burns: Seq<BurnAssessment>)
    ensures
        sequence_verdict(has_los, burns) == ScheduleVerdict::Scheduled <==> (has_los && forall|
            k: int,
        | 0 <= k < burns.len() ==> burn_passes(#[trigger] burns[k])),
        sequence_verdict(has_los, burns) == ScheduleVerdict::Held <==> (!has_los && forall|
            k: int,
        | 0 <= k < burns.len() ==> burn_passes(#[trigger] burns[k])),
{
}

/// Store and forward: line of sight never decides whether a sequence is
/// accepted, only whether it is queued now or held for the next contact.
pub proof fn law_contact_only_defers(burns: Seq<BurnAssessment>)
    ensures
        sequence_verdict(true, burns) == ScheduleVerdict::Scheduled <==> sequence_verdict(false, burns)
            == ScheduleVerdict::Held,
{
}

/// The first failing burn decides: a rejection names a burn that fails, the
/// first check it fails, and every burn before it passes.
pub proof fn law_first_failure_decides(has_los: bool, burns: Seq<BurnAssessment>)
    requires
        burns.len() <= usize::MAX,
    ensures
        sequence_verdict(has_los, burns) matches ScheduleVerdict::Rejected { index, reason, in_contact } ==> {
            &&& in_contact == has_los
            &&& index < burns.len()
            &&& burn_rejection(burns[index as int]) == Some(reason)
            &&& forall|j: int| 0 <= j < index ==> burn_passes(#[trigger] burns[j])
        },
{
    if !(forall|k: int| 0 <= k < burns.len() ==> burn_passes(#[trigger] burns[k])) {
        let w = choose|k: int| 0 <= k < burns.len() && !burn_passes(#[trigger] burns[k]);
        lemma_first_failure_exists(burns, w);
    }
}

proof fn lemma_first_failure_exists(burns: Seq<BurnAssessment>, w: int)
    requires
        0 <= w < burns.len(),
        !burn_passes(burns[w]),
    ensures
        exists|k: int|
            0 <= k < burns.len() && !burn_passes(#[trigger] burns[k]) && forall|j: int|
                0 <= j < k ==> burn_passes(#[trigger] burns[j]),
    decreases w,
{
    if forall|j: int| 0 <= j < w ==> burn_passes(#[trigger] burns[j]) {
    } else {
        let v = choose|j: int| 0 <= j < w && !burn_passes(#[trigger] burns[j]);
        lemma_first_failure_exists(burns, v);
    }
}

} // verus!

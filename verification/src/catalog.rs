//! The catalogue of tracked objects: who each object is, whether it is an
//! active satellite, and whether its end of life has been declared.
//!
//! Objects are numbered in the order in which telemetry first reported them;
//! that number is the index of the object in every per-object table.

use std::collections::HashMap;
use vstd::prelude::*;

use crate::ids::{classify_object, object_identity};
use crate::indices::{indices_where, lemma_indices_where_complete, lemma_indices_where_sound};

verus! {

broadcast use vstd::std_specs::hash::group_hash_axioms;

/// The catalogue as a mathematical value: one entry per object, in order of
/// first report.
pub struct CatalogView {
    pub ids: Seq<u32>,
    pub names: Seq<Seq<char>>,
    pub satellite: Seq<bool>,
    pub eol: Seq<bool>,
}

impl CatalogView {
    pub open spec fn len(self) -> nat {
        self.ids.len()
    }

    /// Every table has one entry per object.
    pub open spec fn well_sized(self) -> bool {
        &&& self.names.len() == self.ids.len()
        &&& self.satellite.len() == self.ids.len()
        &&& self.eol.len() == self.ids.len()
    }

    /// No numeric id is catalogued twice.
    pub open spec fn distinct_ids(self) -> bool {
        forall|i: int, j: int| 0 <= i < self.len() && 0 <= j < self.len() && i != j ==> self.ids[i] != self.ids[j]
    }

    pub open spec fn valid(self) -> bool {
        self.well_sized() && self.distinct_ids()
    }

    /// Some object carries numeric id `k`.
    pub open spec fn holds(self, k: u32) -> bool {
        exists|i: int| 0 <= i < self.len() && self.ids[i] == k
    }

    /// The index of the object that carries `k` (meaningful when `holds(k)`).
    pub open spec fn index_of(self, k: u32) -> int {
        choose|i: int| 0 <= i < self.len() && self.ids[i] == k
    }

    /// The catalogue after telemetry reports object `k`: a new object is
    /// appended, a known one changes nothing here.
    pub open spec fn register(self, name: Seq<char>, k: u32, sat: bool) -> CatalogView {
        if self.holds(k) {
            self
        } else {
            CatalogView {
                ids: self.ids.push(k),
                names: self.names.push(name),
                satellite: self.satellite.push(sat),
                eol: self.eol.push(false),
            }
        }
    }

    /// The first satellite that carries numeric id `k`.
    pub open spec fn is_first_satellite(self, k: u32, i: int) -> bool {
        &&& 0 <= i < self.len()
        &&& self.ids[i] == k
        &&& self.satellite[i]
        &&& forall|j: int| 0 <= j < i ==> !(self.ids[j] == k && self.satellite[j])
    }

    pub open spec fn has_satellite(self, k: u32) -> bool {
        exists|i: int| 0 <= i < self.len() && self.ids[i] == k && self.satellite[i]
    }

    /// Object `i` is a satellite whose end of life falls due now: not yet
    /// declared, low on fuel, and with no burn of its own waiting in the queue.
    pub open spec fn eol_due(self, low_fuel: Seq<bool>, queued: Seq<u32>, i: int) -> bool {
        &&& self.satellite[i]
        &&& !self.eol[i]
        &&& low_fuel[i]
        &&& !queued.contains(self.ids[i])
    }

    /// The catalogue after every satellite whose end of life is due has been
    /// declared end-of-life.
    pub open spec fn declare_eol(self, low_fuel: Seq<bool>, queued: Seq<u32>) -> CatalogView {
        CatalogView {
            eol: Seq::new(self.len(), |i: int| self.eol[i] || self.eol_due(low_fuel, queued, i)),
            ..self
        }
    }

    /// Satellite `i` has drifted out of its station-keeping box.
    pub open spec fn out_of_box(self, drifted: Seq<bool>, i: int) -> bool {
        self.satellite[i] && drifted[i]
    }
}

/// Read after write: once telemetry has reported `k`, the catalogue holds
/// `k`; a known object keeps its index, a new one is found at the end with
/// the name and satellite flag of the report.
pub proof fn law_report_then_lookup(v: CatalogView, name: Seq<char>, k: u32, sat: bool)
    requires
        v.valid(),
    ensures
        v.register(name, k, sat).valid(),
        v.register(name, k, sat).holds(k),
        v.register(name, k, sat).ids[v.register(name, k, sat).index_of(k)] == k,
        v.holds(k) ==> v.register(name, k, sat).index_of(k) == v.index_of(k),
        !v.holds(k) ==> {
            let w = v.register(name, k, sat);
            &&& w.index_of(k) == v.len()
            &&& w.names[v.len() as int] == name
            &&& w.satellite[v.len() as int] == sat
            &&& !w.eol[v.len() as int]
        },
{
    let w = v.register(name, k, sat);
    if !v.holds(k) {
        assert(w.ids[v.len() as int] == k);
        assert forall|i: int, j: int| 0 <= i < w.len() && 0 <= j < w.len() && i != j implies w.ids[i]
            != w.ids[j] by {
            if i < v.len() && j < v.len() {
            } else if i < v.len() {
                assert(!(0 <= i < v.len() && v.ids[i] == k));
            } else {
                assert(!(0 <= j < v.len() && v.ids[j] == k));
            }
        }
        assert(w.holds(k));
        let c = w.index_of(k);
        assert(0 <= c < w.len() && w.ids[c] == k);
    } else {
        let c = v.index_of(k);
        assert(0 <= c < v.len() && v.ids[c] == k);
    }
}

/// Reporting an object twice files it once: the second report changes nothing.
pub proof fn law_report_idempotent(
    v: CatalogView,
    first_name: Seq<char>,
    second_name: Seq<char>,
    k: u32,
    first_sat: bool,
    second_sat: bool,
)
    requires
        v.valid(),
    ensures
        v.register(first_name, k, first_sat).register(second_name, k, second_sat) == v.register(
            first_name,
            k,
            first_sat,
        ),
{
    law_report_then_lookup(v, first_name, k, first_sat);
}

/// The catalogue only grows: a report never alters an entry that was there.
pub proof fn law_report_keeps_entries(v: CatalogView, name: Seq<char>, k: u32, sat: bool, i: int)
    requires
        v.valid(),
        0 <= i < v.len(),
    ensures
        v.register(name, k, sat).len() == v.len() || v.register(name, k, sat).len() == v.len() + 1,
        v.register(name, k, sat).ids[i] == v.ids[i],
        v.register(name, k, sat).names[i] == v.names[i],
        v.register(name, k, sat).satellite[i] == v.satellite[i],
        v.register(name, k, sat).eol[i] == v.eol[i],
{
}

/// End of life is declared at most once per satellite: a satellite declared
/// now is never due again, and a declaration is never withdrawn.
pub proof fn law_eol_declared_once(
    v: CatalogView,
    low_fuel: Seq<bool>,
    queued: Seq<u32>,
    later_low_fuel: Seq<bool>,
    later_queued: Seq<u32>,
    i: int,
)
    requires
        v.well_sized(),
        0 <= i < v.len(),
    ensures
        v.eol_due(low_fuel, queued, i) ==> !v.declare_eol(low_fuel, queued).eol_due(
            later_low_fuel,
            later_queued,
            i,
        ),
        v.eol[i] ==> v.declare_eol(low_fuel, queued).eol[i],
        v.declare_eol(low_fuel, queued).well_sized(),
{
}

/// A burn that the ground system commands on its own.
#[derive(Clone, Copy, Debug, PartialEq, Eq, Structural)]
pub enum AutoBurn {
    /// Dodge a predicted conjunction closer than the critical distance.
    Evasion,
    /// Return a drifted satellite to its slot once no threat remains.
    Recovery,
}

/// The autonomous burn that object `i` needs, if any. Only an active
/// satellite (not at end of life) whose thruster cooldown allows a burn now
/// is commanded; a threat calls for evasion, and otherwise drift out of the
/// box calls for recovery. The burn is not commanded again while an
/// autonomous burn of the same kind for that satellite is still pending.
pub open spec fn auto_burn_of(
    v: CatalogView,
    threatened: Seq<bool>,
    drifted: Seq<bool>,
    cooled: Seq<bool>,
    pending: Seq<(u32, AutoBurn)>,
    i: int,
) -> Option<AutoBurn> {
    let wanted = if threatened[i] {
        Some(AutoBurn::Evasion)
    } else if drifted[i] {
        Some(AutoBurn::Recovery)
    } else {
        None
    };
    if !(v.satellite[i] && !v.eol[i] && cooled[i]) {
        None
    } else {
        match wanted {
            Some(k) => if pending.contains((v.ids[i], k)) {
                None
            } else {
                Some(k)
            },
            None => None,
        }
    }
}

/// The autonomous burns of a catalogue: each object that needs one, in
/// catalogue order, with its kind.
pub open spec fn auto_burn_plan(
    v: CatalogView,
    threatened: Seq<bool>,
    drifted: Seq<bool>,
    cooled: Seq<bool>,
    pending: Seq<(u32, AutoBurn)>,
) -> Seq<(usize, AutoBurn)> {
    indices_where(|i: int| auto_burn_of(v, threatened, drifted, cooled, pending, i) is Some, v.len()).map_values(
        |i: usize| (i, auto_burn_of(v, threatened, drifted, cooled, pending, i as int).unwrap()),
    )
}

/// Evasion whenever threatened, recovery once the threat has passed: an
/// active satellite whose cooldown allows a burn evades a threat and
/// otherwise recovers from drift, unless the same autonomous burn is already
/// pending for it; a threatened satellite never recovers instead, and nothing
/// is commanded for debris or for a satellite at end of life.
pub proof fn law_evasion_before_recovery(
    v: CatalogView,
    threatened: Seq<bool>,
    drifted: Seq<bool>,
    cooled: Seq<bool>,
    pending: Seq<(u32, AutoBurn)>,
    i: int,
)
    requires
        v.well_sized(),
        0 <= i < v.len(),
    ensures
        auto_burn_of(v, threatened, drifted, cooled, pending, i) == Some(AutoBurn::Recovery) ==> !threatened[i],
        threatened[i] && v.satellite[i] && !v.eol[i] && cooled[i] && !pending.contains((v.ids[i], AutoBurn::Evasion))
            ==> auto_burn_of(v, threatened, drifted, cooled, pending, i) == Some(AutoBurn::Evasion),
        !threatened[i] && drifted[i] && v.satellite[i] && !v.eol[i] && cooled[i] && !pending.contains(
            (v.ids[i], AutoBurn::Recovery),
        ) ==> auto_burn_of(v, threatened, drifted, cooled, pending, i) == Some(AutoBurn::Recovery),
        !v.satellite[i] || v.eol[i] || !cooled[i] ==> auto_burn_of(v, threatened, drifted, cooled, pending, i) is None,
{
}

/// Every autonomous burn has its cause: nothing is commanded for an object
/// that is neither threatened nor drifted, an evasion only for a threatened
/// one, a recovery only for a drifted one that is not threatened, and either
/// only for an active satellite whose cooldown allows it and for which the
/// same burn is not already pending.
pub proof fn law_autonomous_burn_has_cause(
    v: CatalogView,
    threatened: Seq<bool>,
    drifted: Seq<bool>,
    cooled: Seq<bool>,
    pending: Seq<(u32, AutoBurn)>,
    i: int,
)
    requires
        v.well_sized(),
        0 <= i < v.len(),
    ensures
        !threatened[i] && !drifted[i] ==> auto_burn_of(v, threatened, drifted, cooled, pending, i) is None,
        auto_burn_of(v, threatened, drifted, cooled, pending, i) == Some(AutoBurn::Evasion) ==> threatened[i],
        auto_burn_of(v, threatened, drifted, cooled, pending, i) == Some(AutoBurn::Recovery) ==> drifted[i]
            && !threatened[i],
        auto_burn_of(v, threatened, drifted, cooled, pending, i) matches Some(k) ==> {
            &&& v.satellite[i]
            &&& !v.eol[i]
            &&& cooled[i]
            &&& !pending.contains((v.ids[i], k))
        },
{
}

/// The plan lists, in increasing catalogue order and each at most once,
/// exactly the satellites that need a burn: every entry has its cause (see
/// `law_autonomous_burn_has_cause`), every active threatened satellite whose
/// cooldown allows it and with no evasion pending is listed for evasion, and
/// every such drifted one without a threat and with no recovery pending is
/// listed for recovery.
pub proof fn law_plan_lists_needed_burns(
    v: CatalogView,
    threatened: Seq<bool>,
    drifted: Seq<bool>,
    cooled: Seq<bool>,
    pending: Seq<(u32, AutoBurn)>,
)
    requires
        v.well_sized(),
        v.len() <= usize::MAX,
    ensures
        ({
            let plan = auto_burn_plan(v, threatened, drifted, cooled, pending);
            &&& forall|t: int|
                0 <= t < plan.len() ==> {
                    let (i, k) = #[trigger] plan[t];
                    &&& i < v.len()
                    &&& v.satellite[i as int]
                    &&& !v.eol[i as int]
                    &&& cooled[i as int]
                    &&& !pending.contains((v.ids[i as int], k))
                    &&& k == AutoBurn::Evasion ==> threatened[i as int]
                    &&& k == AutoBurn::Recovery ==> drifted[i as int] && !threatened[i as int]
                }
            &&& forall|t1: int, t2: int| 0 <= t1 < t2 < plan.len() ==> (#[trigger] plan[t1]).0 < (#[trigger] plan[t2]).0
            &&& forall|i: int|
                0 <= i < v.len() && v.satellite[i] && !v.eol[i] && cooled[i] && #[trigger] threatened[i]
                    && !pending.contains((v.ids[i], AutoBurn::Evasion)) ==> plan.contains(
                    (i as usize, AutoBurn::Evasion),
                )
            &&& forall|i: int|
                0 <= i < v.len() && v.satellite[i] && !v.eol[i] && cooled[i] && !threatened[i] && #[trigger] drifted[i]
                    && !pending.contains((v.ids[i], AutoBurn::Recovery)) ==> plan.contains(
                    (i as usize, AutoBurn::Recovery),
                )
        }),
{
    let pred = |i: int| auto_burn_of(v, threatened, drifted, cooled, pending, i) is Some;
    let f = |i: usize| (i, auto_burn_of(v, threatened, drifted, cooled, pending, i as int).unwrap());
    let idx = indices_where(pred, v.len());
    let plan = auto_burn_plan(v, threatened, drifted, cooled, pending);
    assert(plan == idx.map_values(f));
    lemma_indices_where_sound(pred, v.len());
    assert forall|t: int| 0 <= t < plan.len() implies {
        let (i, k) = #[trigger] plan[t];
        &&& i < v.len()
        &&& v.satellite[i as int]
        &&& !v.eol[i as int]
        &&& cooled[i as int]
        &&& !pending.contains((v.ids[i as int], k))
        &&& k == AutoBurn::Evasion ==> threatened[i as int]
        &&& k == AutoBurn::Recovery ==> drifted[i as int] && !threatened[i as int]
    } by {
        assert(idx[t] < v.len() && pred(idx[t] as int));
        law_autonomous_burn_has_cause(v, threatened, drifted, cooled, pending, idx[t] as int);
    }
    assert forall|t1: int, t2: int| 0 <= t1 < t2 < plan.len() implies (#[trigger] plan[t1]).0 < (
    #[trigger] plan[t2]).0 by {
        assert(idx[t1] < idx[t2]);
    }
    assert forall|i: int|
        0 <= i < v.len() && v.satellite[i] && !v.eol[i] && cooled[i] && #[trigger] threatened[i]
            && !pending.contains((v.ids[i], AutoBurn::Evasion)) implies plan.contains(
        (i as usize, AutoBurn::Evasion),
    ) by {
        assert(pred(i));
        lemma_indices_where_complete(pred, v.len(), i);
        let t = choose|t: int| 0 <= t < idx.len() && idx[t] == i as usize;
        assert(plan[t] == (i as usize, AutoBurn::Evasion));
    }
    assert forall|i: int|
        0 <= i < v.len() && v.satellite[i] && !v.eol[i] && cooled[i] && !threatened[i] && #[trigger] drifted[i]
            && !pending.contains((v.ids[i], AutoBurn::Recovery)) implies plan.contains(
        (i as usize, AutoBurn::Recovery),
    ) by {
        assert(pred(i));
        lemma_indices_where_complete(pred, v.len(), i);
        let t = choose|t: int| 0 <= t < idx.len() && idx[t] == i as usize;
        assert(plan[t] == (i as usize, AutoBurn::Recovery));
    }
}

/// End of life needs low fuel: a satellite above the fuel reserve is never
/// due and keeps its end-of-life flag whatever burns are queued; nor is
/// debris, a satellite already declared, or one with a burn of its own
/// waiting. A satellite at the reserve, not yet declared and with no burn
/// waiting is due and is declared.
pub proof fn law_eol_needs_low_fuel(v: CatalogView, low_fuel: Seq<bool>, queued: Seq<u32>, i: int)
    requires
        v.well_sized(),
        0 <= i < v.len(),
    ensures
        !low_fuel[i] ==> !v.eol_due(low_fuel, queued, i) && v.declare_eol(low_fuel, queued).eol[i] == v.eol[i],
        v.eol_due(low_fuel, queued, i) ==> {
            &&& v.satellite[i]
            &&& !v.eol[i]
            &&& low_fuel[i]
            &&& !queued.contains(v.ids[i])
        },
        !v.eol_due(low_fuel, queued, i) ==> v.declare_eol(low_fuel, queued).eol[i] == v.eol[i],
        v.satellite[i] && !v.eol[i] && low_fuel[i] && !queued.contains(v.ids[i]) ==> v.eol_due(
            low_fuel,
            queued,
            i,
        ) && v.declare_eol(low_fuel, queued).eol[i],
        v.declare_eol(low_fuel, queued).ids == v.ids && v.declare_eol(low_fuel, queued).names == v.names
            && v.declare_eol(low_fuel, queued).satellite == v.satellite,
{
}

/// What a satellite's slot status says in a snapshot.
#[derive(Clone, Copy, Debug, PartialEq, Eq, Structural)]
pub enum SlotStatus {
    Nominal,
    OutOfSlot,
    EndOfLife,
}

/// End of life outranks drift; an object inside its box is nominal.
pub open spec fn slot_status_of(eol: bool, drifted: bool) -> SlotStatus {
    if eol {
        SlotStatus::EndOfLife
    } else if drifted {
        SlotStatus::OutOfSlot
    } else {
        SlotStatus::Nominal
    }
}

pub open spec fn slot_label(s: SlotStatus) -> Seq<char> {
    match s {
        SlotStatus::Nominal => seq!['N', 'O', 'M', 'I', 'N', 'A', 'L'],
        SlotStatus::OutOfSlot => seq!['O', 'U', 'T', '_', 'O', 'F', '_', 'S', 'L', 'O', 'T'],
        SlotStatus::EndOfLife => seq!['E', 'O', 'L'],
    }
}

/// End of life shows whatever else holds; a satellite still in service is
/// out of its slot exactly when it has drifted out of its box; and the three
/// statuses read differently.
pub proof fn law_slot_status(eol: bool, drifted: bool)
    ensures
        (slot_status_of(eol, drifted) == SlotStatus::EndOfLife) <==> eol,
        (slot_status_of(eol, drifted) == SlotStatus::OutOfSlot) <==> (!eol && drifted),
        (slot_status_of(eol, drifted) == SlotStatus::Nominal) <==> (!eol && !drifted),
        slot_label(SlotStatus::Nominal) != slot_label(SlotStatus::OutOfSlot),
        slot_label(SlotStatus::Nominal) != slot_label(SlotStatus::EndOfLife),
        slot_label(SlotStatus::OutOfSlot) != slot_label(SlotStatus::EndOfLife),
        slot_label(SlotStatus::EndOfLife) == seq!['E', 'O', 'L'],
{
    assert(slot_label(SlotStatus::Nominal).len() != slot_label(SlotStatus::OutOfSlot).len());
    assert(slot_label(SlotStatus::Nominal).len() != slot_label(SlotStatus::EndOfLife).len());
    assert(slot_label(SlotStatus::OutOfSlot).len() != slot_label(SlotStatus::EndOfLife).len());
}

/// Only satellites are reported out of their box, and every drifted
/// satellite is.
pub proof fn law_out_of_box(v: CatalogView, drifted: Seq<bool>, i: int)
    ensures
        v.out_of_box(drifted, i) <==> (v.satellite[i] && drifted[i]),
{
}

impl SlotStatus {
    /// The status text of the snapshot API.
    pub fn label(&self) -> (r: String)
        ensures
            r@ == slot_label(*self),
    {
        match self {
            SlotStatus::Nominal => {
                let r = "NOMINAL".to_owned();
                proof {
                    reveal_strlit("NOMINAL");
                }
                r
            },
            SlotStatus::OutOfSlot => {
                let r = "OUT_OF_SLOT".to_owned();
                proof {
                    reveal_strlit("OUT_OF_SLOT");
                }
                r
            },
            SlotStatus::EndOfLife => {
                let r = "EOL".to_owned();
                proof {
                    reveal_strlit("EOL");
                }
                r
            },
        }
    }
}

/// Whether `x` occurs in `v`.
pub fn contains_id(v: &Vec<u32>, x: u32) -> (r: bool)
    ensures
        r == v@.contains(x),
{
    let mut i: usize = 0;
    while i < v.len()
        invariant
            i <= v@.len(),
            forall|j: int| 0 <= j < i ==> v@[j] != x,
        decreases v@.len() - i,
    {
        if v[i] == x {
            return true;
        }
        i = i + 1;
    }
    false
}

/// Whether the autonomous burn `(x, k)` occurs in `v`.
pub fn contains_pending(v: &Vec<(u32, AutoBurn)>, x: u32, k: AutoBurn) -> (r: bool)
    ensures
        r == v@.contains((x, k)),
{
    let mut i: usize = 0;
    while i < v.len()
        invariant
            i <= v@.len(),
            forall|j: int| 0 <= j < i ==> v@[j] != (x, k),
        decreases v@.len() - i,
    {
        let (y, m) = v[i];
        if y == x && m == k {
            assert(v@[i as int] == (x, k));
            return true;
        }
        i = i + 1;
    }
    false
}

/// How a telemetry report was filed.
#[derive(Clone, Copy, Debug, PartialEq, Eq, Structural)]
pub enum Registration {
    /// The object was already catalogued at this index.
    Existing(usize),
    /// The object is new and was appended at this index.
    Added(usize),
}

/// The catalogue of tracked objects.
pub struct Catalog {
    ids: Vec<u32>,
    names: Vec<String>,
    satellite: Vec<bool>,
    eol: Vec<bool>,
    index: HashMap<u32, usize>,
}

impl View for Catalog {
    type V = CatalogView;

    closed spec fn view(&self) -> CatalogView {
        CatalogView {
            ids: self.ids@,
            names: self.names@.map_values(|s: String| s@),
            satellite: self.satellite@,
            eol: self.eol@,
        }
    }
}

impl Catalog {
    /// The tables agree in length and the id index is exact.
    pub closed spec fn wf(&self) -> bool {
        &&& self.names@.len() == self.ids@.len()
        &&& self.satellite@.len() == self.ids@.len()
        &&& self.eol@.len() == self.ids@.len()
        &&& forall|i: int|
            0 <= i < self.ids@.len() ==> #[trigger] self.index@.contains_key(self.ids@[i])
                && self.index@[self.ids@[i]] == i
        &&& forall|k: u32|
            #[trigger] self.index@.contains_key(k) ==> self.index@[k] < self.ids@.len()
                && self.ids@[self.index@[k] as int] == k
    }

    /// A well-formed catalogue has a valid view.
    pub proof fn lemma_wf_valid(&self)
        requires
            self.wf(),
        ensures
            self@.valid(),
    {
        assert forall|i: int, j: int|
            0 <= i < self@.len() && 0 <= j < self@.len() && i != j implies self@.ids[i]
            != self@.ids[j] by {
            assert(self.index@.contains_key(self.ids@[i]));
            assert(self.index@.contains_key(self.ids@[j]));
        }
    }

    /// An empty catalogue with room for `capacity` objects.
    pub fn new(capacity: usize) -> (c: Catalog)
        ensures
            c.wf(),
            c@.len() == 0,
            c@.well_sized(),
    {
        Catalog {
            ids: Vec::with_capacity(capacity),
            names: Vec::with_capacity(capacity),
            satellite: Vec::with_capacity(capacity),
            eol: Vec::with_capacity(capacity),
            index: HashMap::with_capacity(capacity),
        }
    }

    /// The number of catalogued objects.
    pub fn len(&self) -> (n: usize)
        ensures
            n == self@.len(),
    {
        self.ids.len()
    }

    /// The index of the object with numeric id `k`, if any.
    pub fn index_of(&self, k: u32) -> (r: Option<usize>)
        requires
            self.wf(),
        ensures
            match r {
                Some(i) => self@.holds(k) && i == self@.index_of(k) && self@.ids[i as int] == k,
                None => !self@.holds(k),
            },
    {
        proof {
            self.lemma_wf_valid();
        }
        match self.index.get(&k) {
            Some(i) => {
                let i = *i;
                assert(self@.ids[i as int] == k);
                Some(i)
            },
            None => {
                assert forall|i: int| 0 <= i < self@.len() implies self@.ids[i] != k by {
                    assert(self.index@.contains_key(self.ids@[i]));
                }
                None
            },
        }
    }

    /// Files object `k`: a known id returns its index and changes nothing;
    /// a new id is appended with the given name and satellite flag.
    pub fn register(&mut self, name: String, k: u32, sat: bool) -> (r: Registration)
        requires
            old(self).wf(),
        ensures
            final(self).wf(),
            final(self)@ == old(self)@.register(name@, k, sat),
            match r {
                Registration::Existing(i) => old(self)@.holds(k) && i == old(self)@.index_of(k)
                    && old(self)@.ids[i as int] == k,
                Registration::Added(i) => !old(self)@.holds(k) && i == old(self)@.len(),
            },
    {
        match self.index_of(k) {
            Some(i) => Registration::Existing(i),
            None => {
                let n = self.ids.len();
                let ghost old_names = self.names@;
                self.ids.push(k);
                self.names.push(name);
                self.satellite.push(sat);
                self.eol.push(false);
                self.index.insert(k, n);
                assert(self.names@.map_values(|s: String| s@) =~= old_names.map_values(
                    |s: String| s@,
                ).push(name@));
                assert forall|i: int|
                    0 <= i < self.ids@.len() implies #[trigger] self.index@.contains_key(
                    self.ids@[i],
                ) && self.index@[self.ids@[i]] == i by {
                    if i < n {
                        assert(old(self).index@.contains_key(old(self).ids@[i]));
                        assert(!(0 <= i < old(self)@.len() && old(self)@.ids[i] == k));
                    }
                }
                Registration::Added(n)
            },
        }
    }

    /// Files a telemetry object by its API id and declared type (see
    /// `crate::ids::object_identity`).
    pub fn ingest(&mut self, api: &str, obj_type: &str) -> (r: Registration)
        requires
            old(self).wf(),
        ensures
            final(self).wf(),
            final(self)@ == old(self)@.register(
                api@,
                object_identity(api@, obj_type@).0,
                object_identity(api@, obj_type@).1,
            ),
            match r {
                Registration::Existing(i) => old(self)@.holds(object_identity(api@, obj_type@).0)
                    && i == old(self)@.index_of(object_identity(api@, obj_type@).0),
                Registration::Added(i) => !old(self)@.holds(object_identity(api@, obj_type@).0)
                    && i == old(self)@.len(),
            },
    {
        let (numeric_id, is_satellite) = classify_object(api, obj_type);
        let name = api.to_owned();
        self.register(name, numeric_id, is_satellite)
    }

    /// The numeric id of object `i`.
    pub fn id(&self, i: usize) -> (r: u32)
        requires
            i < self@.len(),
        ensures
            r == self@.ids[i as int],
    {
        self.ids[i]
    }

    /// The API id under which object `i` was first reported.
    pub fn name(&self, i: usize) -> (r: &str)
        requires
            self.wf(),
            i < self@.len(),
        ensures
            r@ == self@.names[i as int],
    {
        self.names[i].as_str()
    }

    /// Whether object `i` is an active satellite.
    pub fn is_satellite(&self, i: usize) -> (r: bool)
        requires
            self.wf(),
            i < self@.len(),
        ensures
            r == self@.satellite[i as int],
    {
        self.satellite[i]
    }

    /// Whether end of life has been declared for object `i`.
    pub fn is_eol(&self, i: usize) -> (r: bool)
        requires
            self.wf(),
            i < self@.len(),
        ensures
            r == self@.eol[i as int],
    {
        self.eol[i]
    }

    /// Plans the autonomous burns: for each object, `threatened[i]` says
    /// whether a predicted conjunction comes closer than the critical
    /// distance, `drifted[i]` whether it is out of its box, `cooled[i]`
    /// whether its thruster cooldown allows a burn now; `pending` holds the
    /// autonomous burns still waiting, by satellite id and kind.
    pub fn plan_autonomous_burns(
        &self,
        threatened: &Vec<bool>,
        drifted: &Vec<bool>,
        cooled: &Vec<bool>,
        pending: &Vec<(u32, AutoBurn)>,
    ) -> (r: Vec<(usize, AutoBurn)>)
        requires
            self.wf(),
            threatened@.len() == self@.len(),
            drifted@.len() == self@.len(),
            cooled@.len() == self@.len(),
        ensures
            r@ == auto_burn_plan(self@, threatened@, drifted@, cooled@, pending@),
    {
        let ghost pred = |i: int| auto_burn_of(self@, threatened@, drifted@, cooled@, pending@, i) is Some;
        let ghost f = |i: usize| (i, auto_burn_of(self@, threatened@, drifted@, cooled@, pending@, i as int).unwrap());
        let n = self.ids.len();
        let mut r: Vec<(usize, AutoBurn)> = Vec::new();
        let mut i: usize = 0;
        while i < n
            invariant
                self.wf(),
                n == self@.len(),
                i <= n,
                threatened@.len() == n,
                drifted@.len() == n,
                cooled@.len() == n,
                pred == (|i: int| auto_burn_of(self@, threatened@, drifted@, cooled@, pending@, i) is Some),
                f == (|i: usize| (i, auto_burn_of(self@, threatened@, drifted@, cooled@, pending@, i as int).unwrap())),
                r@ == indices_where(pred, i as nat).map_values(f),
            decreases n - i,
        {
            let ghost before = indices_where(pred, i as nat);
            let eligible = self.satellite[i] && !self.eol[i] && cooled[i];
            let wanted = if threatened[i] {
                Some(AutoBurn::Evasion)
            } else if drifted[i] {
                Some(AutoBurn::Recovery)
            } else {
                None
            };
            let kind = if !eligible {
                None
            } else {
                match wanted {
                    Some(k) => if contains_pending(pending, self.ids[i], k) {
                        None
                    } else {
                        Some(k)
                    },
                    None => None,
                }
            };
            assert(kind == auto_burn_of(self@, threatened@, drifted@, cooled@, pending@, i as int));
            match kind {
                Some(k) => {
                    assert(before.push(i as usize).map_values(f) =~= before.map_values(f).push(f(i as usize)));
                    r.push((i, k));
                },
                None => {},
            }
            i = i + 1;
        }
        r
    }

    /// The indices of the satellites and of the other objects, each in
    /// catalogue order: how a snapshot splits the population.
    pub fn satellites_and_debris(&self) -> (r: (Vec<usize>, Vec<usize>))
        requires
            self.wf(),
        ensures
            r.0@ == indices_where(|i: int| self@.satellite[i], self@.len()),
            r.1@ == indices_where(|i: int| !self@.satellite[i], self@.len()),
    {
        let ghost sat_pred = |i: int| self@.satellite[i];
        let ghost deb_pred = |i: int| !self@.satellite[i];
        let n = self.satellite.len();
        let mut sats: Vec<usize> = Vec::new();
        let mut debris: Vec<usize> = Vec::new();
        let mut i: usize = 0;
        while i < n
            invariant
                self.wf(),
                n == self@.len(),
                i <= n,
                sat_pred == (|i: int| self@.satellite[i]),
                deb_pred == (|i: int| !self@.satellite[i]),
                sats@ == indices_where(sat_pred, i as nat),
                debris@ == indices_where(deb_pred, i as nat),
            decreases n - i,
        {
            if self.satellite[i] {
                sats.push(i);
            } else {
                debris.push(i);
            }
            i = i + 1;
        }
        (sats, debris)
    }

    /// The first satellite with numeric id `k`: the object a burn for `k` acts on.
    pub fn find_satellite(&self, k: u32) -> (r: Option<usize>)
        requires
            self.wf(),
        ensures
            match r {
                Some(i) => self@.is_first_satellite(k, i as int),
                None => !self@.has_satellite(k),
            },
    {
        let mut i: usize = 0;
        while i < self.ids.len()
            invariant
                self.wf(),
                i <= self@.len(),
                forall|j: int| 0 <= j < i ==> !(self@.ids[j] == k && self@.satellite[j]),
            decreases self@.len() - i,
        {
            if self.ids[i] == k && self.satellite[i] {
                return Some(i);
            }
            i = i + 1;
        }
        None
    }

    /// The snapshot status of object `i`, given whether it has drifted out of
    /// its station-keeping box.
    pub fn slot_status(&self, i: usize, drifted: bool) -> (r: SlotStatus)
        requires
            self.wf(),
            i < self@.len(),
        ensures
            r == slot_status_of(self@.eol[i as int], drifted),
    {
        if self.eol[i] {
            SlotStatus::EndOfLife
        } else if drifted {
            SlotStatus::OutOfSlot
        } else {
            SlotStatus::Nominal
        }
    }

    /// Declares end of life for every satellite that is due (see
    /// `CatalogView::eol_due`) and returns their indices in increasing order.
    /// `low_fuel[i]` says whether object `i` has no more than the end-of-life
    /// fuel reserve; `queued` holds the satellite ids of the waiting burns.
    pub fn declare_end_of_life(&mut self, low_fuel: &Vec<bool>, queued: &Vec<u32>) -> (r: Vec<
        usize,
    >)
        requires
            old(self).wf(),
            low_fuel@.len() == old(self)@.len(),
        ensures
            final(self).wf(),
            final(self)@ == old(self)@.declare_eol(low_fuel@, queued@),
            r@ == indices_where(|i: int| old(self)@.eol_due(low_fuel@, queued@, i), old(self)@.len()),
    {
        let ghost pred = |i: int| old(self)@.eol_due(low_fuel@, queued@, i);
        let ghost v0 = self@;
        let n = self.ids.len();
        let mut r: Vec<usize> = Vec::new();
        let mut i: usize = 0;
        while i < n
            invariant
                self.wf(),
                n == v0.len(),
                i <= n,
                low_fuel@.len() == n,
                self.ids@ == old(self).ids@,
                self.names@ == old(self).names@,
                self.satellite@ == old(self).satellite@,
                self.index@ == old(self).index@,
                v0 == old(self)@,
                pred == (|i: int| v0.eol_due(low_fuel@, queued@, i)),
                forall|j: int| 0 <= j < i ==> self.eol@[j] == (v0.eol[j] || v0.eol_due(low_fuel@, queued@, j)),
                forall|j: int| i <= j < n ==> self.eol@[j] == v0.eol[j],
                r@ == indices_where(pred, i as nat),
            decreases n - i,
        {
            let due = self.satellite[i] && !self.eol[i] && low_fuel[i] && !contains_id(queued, self.ids[i]);
            assert(due == pred(i as int));
            if due {
                self.eol.set(i, true);
                r.push(i);
            }
            i = i + 1;
        }
        assert(self@.eol =~= v0.declare_eol(low_fuel@, queued@).eol);
        assert(self@.names =~= v0.names);
        r
    }

    /// The numeric ids of the satellites that have drifted out of their box,
    /// in catalogue order. `drifted[i]` says whether object `i` lies further
    /// from its nominal slot than the drift tolerance.
    pub fn out_of_box_ids(&self, drifted: &Vec<bool>) -> (r: Vec<u32>)
        requires
            self.wf(),
            drifted@.len() == self@.len(),
        ensures
            r@ == indices_where(|i: int| self@.out_of_box(drifted@, i), self@.len()).map_values(
                |i: usize| self@.ids[i as int],
            ),
    {
        let ghost pred = |i: int| self@.out_of_box(drifted@, i);
        let ghost f = |i: usize| self@.ids[i as int];
        let n = self.ids.len();
        let mut r: Vec<u32> = Vec::new();
        let mut i: usize = 0;
        while i < n
            invariant
                self.wf(),
                n == self@.len(),
                i <= n,
                drifted@.len() == n,
                pred == (|i: int| self@.out_of_box(drifted@, i)),
                f == (|i: usize| self@.ids[i as int]),
                r@ == indices_where(pred, i as nat).map_values(f),
            decreases n - i,
        {
            let ghost before = indices_where(pred, i as nat);
            if self.satellite[i] && drifted[i] {
                assert(before.push(i as usize).map_values(f) =~= before.map_values(f).push(
                    f(i as usize),
                ));
                r.push(self.ids[i]);
            }
            i = i + 1;
        }
        r
    }
}

} // verus!

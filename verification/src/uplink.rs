//! Store-and-forward uplink: burns commanded while no ground station sees
//! their satellite are held here, and are sent the moment the satellite is
//! back in contact.

use vstd::prelude::*;

use crate::indices::{
    lemma_select_all, lemma_select_congruent, lemma_select_none, lemma_select_sound, lemma_select_tail_all, lemma_select_tail_none, select,
};

verus! {

/// Burns waiting for line of sight, each tagged with its satellite's numeric
/// id, in the order in which they were commanded.
pub struct UplinkQueue<T> {
    held: Vec<(u32, T)>,
}

impl<T> View for UplinkQueue<T> {
    type V = Seq<(u32, T)>;

    closed spec fn view(&self) -> Seq<(u32, T)> {
        self.held@
    }
}

/// A held burn is sent when its satellite is in contact and its burn time
/// still lies ahead.
pub open spec fn sent<T>(held: Seq<(u32, T)>, in_contact: Seq<u32>, ahead: Seq<bool>, i: int) -> bool {
    in_contact.contains(held[i].0) && ahead[i]
}

/// A held burn stays held while its satellite is out of contact.
pub open spec fn stays<T>(held: Seq<(u32, T)>, in_contact: Seq<u32>, i: int) -> bool {
    !in_contact.contains(held[i].0)
}

/// The burns sent from `held`, in order.
pub open spec fn sent_burns<T>(held: Seq<(u32, T)>, in_contact: Seq<u32>, ahead: Seq<bool>) -> Seq<T> {
    select(held.map_values(|e: (u32, T)| e.1), |i: int| sent(held, in_contact, ahead, i), held.len())
}

/// What remains held after a release, in order.
pub open spec fn still_held<T>(held: Seq<(u32, T)>, in_contact: Seq<u32>) -> Seq<(u32, T)> {
    select(held, |i: int| stays(held, in_contact, i), held.len())
}

impl<T> UplinkQueue<T> {
    /// An empty queue.
    pub fn new() -> (q: UplinkQueue<T>)
        ensures
            q@ == Seq::<(u32, T)>::empty(),
    {
        UplinkQueue { held: Vec::new() }
    }

    /// The number of held burns.
    pub fn len(&self) -> (n: usize)
        ensures
            n == self@.len(),
    {
        self.held.len()
    }

    /// The held burns with their satellites, in order.
    pub fn entries(&self) -> (r: &Vec<(u32, T)>)
        ensures
            r@ == self@,
    {
        &self.held
    }

    /// Holds a commanded burn sequence for `satellite` until contact returns:
    /// its burns are appended in order.
    pub fn hold(&mut self, satellite: u32, burns: Vec<T>)
        ensures
            final(self)@ == old(self)@ + burns@.map_values(|b: T| (satellite, b)),
    {
        let ghost start = self.held@;
        let ghost bs = burns@;
        for b in it: burns
            invariant
                bs == it.seq(),
                self.held@ == start + it.seq().take(it.index() as int).map_values(|b: T| (satellite, b)),
        {
            let ghost k = it.index() as int;
            assert(it.seq().take(k + 1).map_values(|b: T| (satellite, b)) =~= it.seq().take(k).map_values(
                |b: T| (satellite, b),
            ).push((satellite, b)));
            self.held.push((satellite, b));
        }
        assert(bs.take(bs.len() as int) =~= bs);
    }

    /// Sends the held burns of the satellites now in contact, in order:
    /// those whose burn time still lies ahead are returned, those whose time
    /// has passed are discarded, and the burns of satellites out of contact
    /// stay held. `ahead[i]` says whether the burn time of held burn `i`
    /// lies ahead.
    pub fn release(&mut self, in_contact: &Vec<u32>, ahead: &Vec<bool>) -> (r: Vec<T>)
        requires
            ahead@.len() == old(self)@.len(),
        ensures
            r@ == sent_burns(old(self)@, in_contact@, ahead@),
            final(self)@ == still_held(old(self)@, in_contact@),
    {
        let ghost held0 = self.held@;
        let ghost vals = held0.map_values(|e: (u32, T)| e.1);
        let ghost send = |i: int| sent(held0, in_contact@, ahead@, i);
        let ghost keep = |i: int| stays(held0, in_contact@, i);
        let mut old_held: Vec<(u32, T)> = Vec::new();
        std::mem::swap(&mut old_held, &mut self.held);
        let mut released: Vec<T> = Vec::new();
        let n = old_held.len();
        let mut idx: usize = 0;
        for e in it: old_held
            invariant
                idx == it.index(),
                held0 == it.seq(),
                n == held0.len(),
                ahead@.len() == n,
                vals == held0.map_values(|e: (u32, T)| e.1),
                send == (|i: int| sent(held0, in_contact@, ahead@, i)),
                keep == (|i: int| stays(held0, in_contact@, i)),
                released@ == select(vals, send, it.index() as nat),
                self.held@ == select(held0, keep, it.index() as nat),
        {
            let ghost k = it.index() as int;
            let (sat, burn) = e;
            assert(held0[k] == (sat, burn));
            let contact = contains_u32(in_contact, sat);
            if contact {
                if ahead[idx] {
                    released.push(burn);
                }
            } else {
                self.held.push((sat, burn));
            }
            idx = idx + 1;
        }
        released
    }
}

/// Read after write: burns held for a satellite join the queue behind those
/// already held, and are sent, in the order they were commanded and after the
/// earlier burns that go out, once that satellite is in contact and their
/// times lie ahead; what else stays held is unchanged by them.
pub proof fn law_hold_then_release<T>(
    held: Seq<(u32, T)>,
    satellite: u32,
    burns: Seq<T>,
    in_contact: Seq<u32>,
    ahead: Seq<bool>,
)
    requires
        in_contact.contains(satellite),
        ahead.len() == held.len() + burns.len(),
        forall|i: int| held.len() <= i < ahead.len() ==> #[trigger] ahead[i],
    ensures
        ({
            let all = held + burns.map_values(|b: T| (satellite, b));
            &&& sent_burns(all, in_contact, ahead) == sent_burns(held, in_contact, ahead.take(held.len() as int))
                + burns
            &&& still_held(all, in_contact) == still_held(held, in_contact)
        }),
{
    let h = held.len();
    let all = held + burns.map_values(|b: T| (satellite, b));
    let n = all.len();
    let before = ahead.take(h as int);
    let vals = all.map_values(|e: (u32, T)| e.1);
    let vals_held = held.map_values(|e: (u32, T)| e.1);
    let send_all = |i: int| sent(all, in_contact, ahead, i);
    let send_held = |i: int| sent(held, in_contact, before, i);
    let keep_all = |i: int| stays(all, in_contact, i);
    let keep_held = |i: int| stays(held, in_contact, i);

    assert forall|i: int| h <= i < n implies #[trigger] send_all(i) by {
        assert(all[i].0 == satellite);
    }
    lemma_select_tail_all(vals, send_all, h, n);
    assert forall|i: int| 0 <= i < h implies #[trigger] vals[i] == vals_held[i] by {
        assert(all[i] == held[i]);
    }
    assert forall|i: int| 0 <= i < h implies #[trigger] send_all(i) == send_held(i) by {
        assert(all[i] == held[i]);
        assert(before[i] == ahead[i]);
    }
    lemma_select_congruent(vals, send_all, vals_held, send_held, h);
    assert(vals.subrange(h as int, n as int) =~= burns);
    assert(select(vals_held, send_held, h) == sent_burns(held, in_contact, before));

    assert forall|i: int| h <= i < n implies !#[trigger] keep_all(i) by {
        assert(all[i].0 == satellite);
    }
    lemma_select_tail_none(all, keep_all, h, n);
    assert forall|i: int| 0 <= i < h implies #[trigger] all[i] == held[i] by {}
    assert forall|i: int| 0 <= i < h implies #[trigger] keep_all(i) == keep_held(i) by {
        assert(all[i] == held[i]);
    }
    lemma_select_congruent(all, keep_all, held, keep_held, h);
}

/// Nothing is sent for a satellite out of contact: when no held burn's
/// satellite is in contact, a release sends nothing and keeps every burn.
pub proof fn law_out_of_contact_keeps_all<T>(held: Seq<(u32, T)>, in_contact: Seq<u32>, ahead: Seq<bool>)
    requires
        forall|i: int| 0 <= i < held.len() ==> !in_contact.contains(#[trigger] held[i].0),
    ensures
        sent_burns(held, in_contact, ahead) == Seq::<T>::empty(),
        still_held(held, in_contact) == held,
{
    let vals = held.map_values(|e: (u32, T)| e.1);
    assert forall|i: int| 0 <= i < held.len() implies !#[trigger] sent(held, in_contact, ahead, i) by {
        assert(!in_contact.contains(held[i].0));
    }
    lemma_select_none(vals, |i: int| sent(held, in_contact, ahead, i), held.len());
    assert forall|i: int| 0 <= i < held.len() implies #[trigger] stays(held, in_contact, i) by {
        assert(!in_contact.contains(held[i].0));
    }
    lemma_select_all(held, |i: int| stays(held, in_contact, i), held.len());
    assert(held.take(held.len() as int) =~= held);
}

/// A release empties the queue of every satellite in contact: whatever stays
/// held belongs to a satellite out of contact.
pub proof fn law_release_clears_contact<T>(held: Seq<(u32, T)>, in_contact: Seq<u32>)
    ensures
        forall|t: int|
            0 <= t < still_held(held, in_contact).len() ==> !in_contact.contains(
                (#[trigger] still_held(held, in_contact)[t]).0,
            ),
{
    let keep = |i: int| stays(held, in_contact, i);
    lemma_select_sound(held, keep, held.len());
    assert forall|t: int| 0 <= t < still_held(held, in_contact).len() implies !in_contact.contains(
        (#[trigger] still_held(held, in_contact)[t]).0,
    ) by {
        let i = choose|i: int|
            0 <= i < held.len() && #[trigger] keep(i) && held[i] == #[trigger] select(held, keep, held.len())[t];
        assert(stays(held, in_contact, i));
    }
}

/// A burn whose time has passed is never sent: when no held burn lies ahead,
/// a release sends nothing, whoever is in contact.
pub proof fn law_past_burns_never_sent<T>(held: Seq<(u32, T)>, in_contact: Seq<u32>, ahead: Seq<bool>)
    requires
        ahead.len() == held.len(),
        forall|i: int| 0 <= i < ahead.len() ==> !#[trigger] ahead[i],
    ensures
        sent_burns(held, in_contact, ahead) == Seq::<T>::empty(),
{
    let vals = held.map_values(|e: (u32, T)| e.1);
    assert forall|i: int| 0 <= i < held.len() implies !#[trigger] sent(held, in_contact, ahead, i) by {
        assert(!ahead[i]);
    }
    lemma_select_none(vals, |i: int| sent(held, in_contact, ahead, i), held.len());
}

fn contains_u32(v: &Vec<u32>, x: u32) -> (r: bool)
    ensures
        r == v@.contains(x),
{
    let mut i: usize = 0;
    while i < v.len()
        invariant
            i <= v@.len(),
            forall|j: int| 0 <= j < i ==> v@[j] != x,
        decreases v@.len() - i,
    {
        if v[i] == x {
            return true;
        }
        i = i + 1;
    }
    false
}

} // verus!

//! Bookkeeping of the burn queue between propagation sub-steps.

use std::collections::HashSet;
use vstd::prelude::*;

verus! {

broadcast use vstd::std_specs::hash::group_hash_axioms;

/// Which queued burns stay queued after a sub-step: a burn leaves when its
/// key (its burn time in whole milliseconds) equals the key of any burn that
/// was executed in the sub-step. `keep[i]` answers for `queue_keys[i]`.
pub fn retained_burns(queue_keys: &Vec<u64>, executed_keys: &Vec<u64>) -> (keep: Vec<bool>)
    ensures
        keep@.len() == queue_keys@.len(),
        forall|i: int| 0 <= i < queue_keys@.len() ==> #[trigger] keep@[i] == !executed_keys@.contains(queue_keys@[i]),
{
    let mut executed: HashSet<u64> = HashSet::new();
    let mut e: usize = 0;
    while e < executed_keys.len()
        invariant
            e <= executed_keys@.len(),
            forall|x: u64| #[trigger] executed@.contains(x) <==> executed_keys@.take(e as int).contains(x),
        decreases executed_keys@.len() - e,
    {
        let ghost before = executed_keys@.take(e as int);
        executed.insert(executed_keys[e]);
        assert(executed_keys@.take(e + 1) =~= before.push(executed_keys@[e as int]));
        assert(executed_keys@.take(e + 1)[e as int] == executed_keys@[e as int]);
        assert forall|x: u64| #[trigger] executed@.contains(x) <==> executed_keys@.take(e + 1).contains(x) by {
            if before.contains(x) {
                let w = choose|w: int| 0 <= w < before.len() && #[trigger] before[w] == x;
                assert(executed_keys@.take(e + 1)[w] == x);
            }
            if executed_keys@.take(e + 1).contains(x) && x != executed_keys@[e as int] {
                let w = choose|w: int| 0 <= w < e + 1 && #[trigger] executed_keys@.take(e + 1)[w] == x;
                assert(before[w] == x);
            }
        }
        e = e + 1;
    }
    assert(executed_keys@.take(e as int) =~= executed_keys@);
    let mut keep: Vec<bool> = Vec::new();
    let mut i: usize = 0;
    while i < queue_keys.len()
        invariant
            i <= queue_keys@.len(),
            keep@.len() == i,
            forall|x: u64| #[trigger] executed@.contains(x) <==> executed_keys@.contains(x),
            forall|j: int| 0 <= j < i ==> #[trigger] keep@[j] == !executed_keys@.contains(queue_keys@[j]),
        decreases queue_keys@.len() - i,
    {
        let k = queue_keys[i];
        let gone = executed.contains(&k);
        keep.push(!gone);
        i = i + 1;
    }
    keep
}

} // verus!

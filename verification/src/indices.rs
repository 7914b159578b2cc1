//! Index lists: the positions of a table that satisfy a predicate.

use vstd::prelude::*;

verus! {

/// The indices below `n` that satisfy `pred`, in increasing order.
pub open spec fn indices_where(pred: spec_fn(int) -> bool, n: nat) -> Seq<usize>
    decreases n,
{
    if n == 0 {
        Seq::empty()
    } else if pred(n - 1) {
        indices_where(pred, (n - 1) as nat).push((n - 1) as usize)
    } else {
        indices_where(pred, (n - 1) as nat)
    }
}

pub proof fn lemma_indices_where_len(pred: spec_fn(int) -> bool, n: nat)
    ensures
        indices_where(pred, n).len() <= n,
    decreases n,
{
    if n > 0 {
        lemma_indices_where_len(pred, (n - 1) as nat);
    }
}

/// Every listed index is below `n`, satisfies `pred`, and the list is
/// strictly increasing.
pub proof fn lemma_indices_where_sound(pred: spec_fn(int) -> bool, n: nat)
    requires
        n <= usize::MAX + 1,
    ensures
        forall|t: int|
            0 <= t < indices_where(pred, n).len() ==> (#[trigger] indices_where(pred, n)[t]) < n
                && pred(indices_where(pred, n)[t] as int),
        forall|t1: int, t2: int|
            0 <= t1 < t2 < indices_where(pred, n).len() ==> #[trigger] indices_where(pred, n)[t1]
                < #[trigger] indices_where(pred, n)[t2],
    decreases n,
{
    if n > 0 {
        lemma_indices_where_sound(pred, (n - 1) as nat);
        let s = indices_where(pred, (n - 1) as nat);
        let w = indices_where(pred, n);
        if pred(n - 1) {
            assert(w == s.push((n - 1) as usize));
            assert forall|t: int| 0 <= t < w.len() implies (#[trigger] w[t]) < n && pred(
                w[t] as int,
            ) by {
                if t < s.len() {
                    assert(w[t] == s[t]);
                }
            }
            assert forall|t1: int, t2: int| 0 <= t1 < t2 < w.len() implies #[trigger] w[t1]
                < #[trigger] w[t2] by {
                assert(w[t1] == s[t1]);
                if t2 < s.len() {
                    assert(w[t2] == s[t2]);
                }
            }
        } else {
            assert(w == s);
        }
    }
}

/// Every index below `n` that satisfies `pred` is listed.
pub proof fn lemma_indices_where_complete(pred: spec_fn(int) -> bool, n: nat, j: int)
    requires
        n <= usize::MAX + 1,
        0 <= j < n,
        pred(j),
    ensures
        indices_where(pred, n).contains(j as usize),
    decreases n,
{
    if j < n - 1 {
        lemma_indices_where_complete(pred, (n - 1) as nat, j);
        let s = indices_where(pred, (n - 1) as nat);
        let t = choose|t: int| 0 <= t < s.len() && s[t] == j as usize;
        if pred(n - 1) {
            assert(s.push((n - 1) as usize)[t] == j as usize);
        }
    } else {
        let s = indices_where(pred, (n - 1) as nat);
        assert(s.push((n - 1) as usize)[s.len() as int] == j as usize);
    }
}

/// The entries among the first `n` of `s` whose positions satisfy `pred`, in order.
pub open spec fn select<A>(s: Seq<A>, pred: spec_fn(int) -> bool, n: nat) -> Seq<A>
    decreases n,
{
    if n == 0 {
        Seq::empty()
    } else if pred(n - 1) {
        select(s, pred, (n - 1) as nat).push(s[n - 1])
    } else {
        select(s, pred, (n - 1) as nat)
    }
}

/// Selecting every position keeps the prefix whole.
pub proof fn lemma_select_all<A>(s: Seq<A>, pred: spec_fn(int) -> bool, n: nat)
    requires
        n <= s.len(),
        forall|i: int| 0 <= i < n ==> #[trigger] pred(i),
    ensures
        select(s, pred, n) == s.take(n as int),
    decreases n,
{
    if n > 0 {
        lemma_select_all(s, pred, (n - 1) as nat);
        assert(s.take(n as int) =~= s.take(n - 1).push(s[n - 1]));
    } else {
        assert(s.take(0) =~= Seq::<A>::empty());
    }
}

/// Selecting no position gives nothing.
pub proof fn lemma_select_none<A>(s: Seq<A>, pred: spec_fn(int) -> bool, n: nat)
    requires
        forall|i: int| 0 <= i < n ==> !#[trigger] pred(i),
    ensures
        select(s, pred, n) == Seq::<A>::empty(),
    decreases n,
{
    if n > 0 {
        lemma_select_none(s, pred, (n - 1) as nat);
    }
}

/// Selecting every position from `m` on appends those entries whole.
pub proof fn lemma_select_tail_all<A>(s: Seq<A>, pred: spec_fn(int) -> bool, m: nat, n: nat)
    requires
        m <= n <= s.len(),
        forall|i: int| m <= i < n ==> #[trigger] pred(i),
    ensures
        select(s, pred, n) == select(s, pred, m) + s.subrange(m as int, n as int),
    decreases n,
{
    if n > m {
        lemma_select_tail_all(s, pred, m, (n - 1) as nat);
        assert(s.subrange(m as int, n as int) =~= s.subrange(m as int, n - 1).push(s[n - 1]));
        assert(pred(n - 1));
    } else {
        assert(s.subrange(m as int, m as int) =~= Seq::<A>::empty());
        assert(select(s, pred, m) + Seq::<A>::empty() =~= select(s, pred, m));
    }
}

/// Selecting no position from `m` on adds nothing.
pub proof fn lemma_select_tail_none<A>(s: Seq<A>, pred: spec_fn(int) -> bool, m: nat, n: nat)
    requires
        m <= n,
        forall|i: int| m <= i < n ==> !#[trigger] pred(i),
    ensures
        select(s, pred, n) == select(s, pred, m),
    decreases n,
{
    if n > m {
        lemma_select_tail_none(s, pred, m, (n - 1) as nat);
        assert(!pred(n - 1));
    }
}

/// A selection depends only on the entries and the predicate below `n`.
pub proof fn lemma_select_congruent<A>(
    s1: Seq<A>,
    p1: spec_fn(int) -> bool,
    s2: Seq<A>,
    p2: spec_fn(int) -> bool,
    n: nat,
)
    requires
        n <= s1.len(),
        n <= s2.len(),
        forall|i: int| 0 <= i < n ==> #[trigger] s1[i] == s2[i],
        forall|i: int| 0 <= i < n ==> #[trigger] p1(i) == p2(i),
    ensures
        select(s1, p1, n) == select(s2, p2, n),
    decreases n,
{
    if n > 0 {
        lemma_select_congruent(s1, p1, s2, p2, (n - 1) as nat);
        assert(p1(n - 1) == p2(n - 1));
        assert(s1[n - 1] == s2[n - 1]);
    }
}

/// Every selected entry is an entry below `n` at a position that satisfies `pred`.
pub proof fn lemma_select_sound<A>(s: Seq<A>, pred: spec_fn(int) -> bool, n: nat)
    ensures
        forall|t: int|
            0 <= t < select(s, pred, n).len() ==> exists|i: int|
                0 <= i < n && #[trigger] pred(i) && s[i] == #[trigger] select(s, pred, n)[t],
    decreases n,
{
    if n > 0 {
        lemma_select_sound(s, pred, (n - 1) as nat);
        let prev = select(s, pred, (n - 1) as nat);
        let cur = select(s, pred, n);
        if pred(n - 1) {
            assert(cur == prev.push(s[n - 1]));
        } else {
            assert(cur == prev);
        }
        assert forall|t: int| 0 <= t < cur.len() implies exists|i: int|
            0 <= i < n && #[trigger] pred(i) && s[i] == #[trigger] cur[t] by {
            if t < prev.len() {
                assert(cur[t] == prev[t]);
                let i = choose|i: int| 0 <= i < n - 1 && #[trigger] pred(i) && s[i] == #[trigger] prev[t];
                assert(0 <= i < n && pred(i) && s[i] == cur[t]);
            } else {
                assert(pred(n - 1) && s[n - 1] == cur[t]);
            }
        }
    }
}

} // verus!

//! Splitting a list of work items among worker threads.

use vstd::prelude::*;

verus! {

/// The share of each worker: the items divided evenly, at least one.
pub open spec fn chunk_size(len: nat, workers: nat) -> nat {
    if len / workers >= 1 {
        len / workers
    } else {
        1
    }
}

/// The work ranges handed to the workers: consecutive half-open ranges of
/// `chunk_size` items that start at 0 and end at `len`, one per worker in
/// order; workers whose range would start at or past `len` get none, and the
/// last worker also takes whatever remains.
pub open spec fn is_work_split(r: Seq<(usize, usize)>, len: nat, workers: nat) -> bool {
    let c = chunk_size(len, workers);
    &&& r.len() <= workers
    &&& (len == 0 <==> r.len() == 0)
    &&& forall|k: int| 0 <= k < r.len() ==> (#[trigger] r[k]).0 == k * c && r[k].0 < r[k].1 <= len
    &&& forall|k: int| 0 <= k < r.len() - 1 ==> (#[trigger] r[k]).1 == (k + 1) * c
    &&& r.len() > 0 ==> r.last().1 == len
    &&& r.len() < workers && r.len() > 0 ==> len - r.last().0 <= c
}

proof fn lemma_chunk_bounds(len: nat, workers: nat, tid: nat)
    requires
        workers >= 1,
        tid < workers,
    ensures
        chunk_size(len, workers) >= 1,
        tid * chunk_size(len, workers) <= if len >= workers { len } else { workers },
        (tid + 1) * chunk_size(len, workers) <= if len >= workers { len } else { workers },
{
    let c = chunk_size(len, workers);
    if len / workers >= 1 {
        assert(c * workers <= len) by (nonlinear_arith)
            requires
                c == len / workers,
                workers >= 1,
        ;
        assert((tid + 1) * c <= workers * c) by (nonlinear_arith)
            requires
                tid + 1 <= workers,
                c >= 1,
        ;
        assert(tid * c <= (tid + 1) * c) by (nonlinear_arith);
    } else {
        assert(c == 1);
    }
}

/// Splits `len` work items among `workers` threads.
pub fn work_ranges(len: usize, workers: usize) -> (r: Vec<(usize, usize)>)
    requires
        workers >= 1,
    ensures
        is_work_split(r@, len as nat, workers as nat),
{
    let chunk: usize = if len / workers >= 1 {
        len / workers
    } else {
        1
    };
    let ghost c = chunk_size(len as nat, workers as nat);
    assert(chunk == c);
    let mut r: Vec<(usize, usize)> = Vec::new();
    let mut tid: usize = 0;
    while tid < workers
        invariant
            workers >= 1,
            chunk == c,
            c == chunk_size(len as nat, workers as nat),
            tid <= workers,
            r@.len() <= tid,
            forall|k: int| 0 <= k < r@.len() ==> (#[trigger] r@[k]).0 == k * c && r@[k].0 < r@[k].1 <= len,
            forall|k: int| 0 <= k < r@.len() - 1 ==> (#[trigger] r@[k]).1 == (k + 1) * c,
            r@.len() > 0 ==> r@.last().1 == (if r@.len() == workers {
                len as int
            } else if r@.len() * c < len {
                (r@.len() * c) as int
            } else {
                len as int
            }),
            r@.len() < tid ==> r@.len() * c >= len,
            len > 0 && tid > 0 ==> r@.len() > 0,
        decreases workers - tid,
    {
        proof {
            lemma_chunk_bounds(len as nat, workers as nat, tid as nat);
        }
        let start = tid * chunk;
        if start < len {
            assert(r@.len() == tid) by {
                if r@.len() < tid {
                    assert(r@.len() * c <= tid * c) by (nonlinear_arith)
                        requires
                            r@.len() <= tid,
                            c >= 1,
                    ;
                }
            }
            assert(start + chunk == (tid + 1) * c) by (nonlinear_arith)
                requires
                    start == tid * c,
                    chunk == c,
            ;
            let end = if tid == workers - 1 {
                len
            } else if start + chunk < len {
                start + chunk
            } else {
                len
            };
            let ghost before = r@;
            r.push((start, end));
            assert forall|k: int| 0 <= k < r@.len() - 1 implies (#[trigger] r@[k]).1 == (k + 1) * c by {
                if k == tid - 1 {
                    assert(r@[k] == before.last());
                } else {
                    assert(r@[k] == before[k]);
                }
            }
            assert forall|k: int| 0 <= k < r@.len() implies (#[trigger] r@[k]).0 == k * c && r@[k].0
                < r@[k].1 <= len by {
                if k < tid {
                    assert(r@[k] == before[k]);
                }
            }
        } else {
            assert(r@.len() * c >= len) by {
                if r@.len() == tid {
                } else {
                }
            }
        }
        tid = tid + 1;
    }
    assert(r@.len() > 0 ==> r@.last().0 == (r@.len() - 1) * c);
    assert(r@.len() > 0 && r@.len() < workers ==> len - r@.last().0 <= c) by {
        if r@.len() > 0 && r@.len() < workers {
            assert((r@.len() - 1) * c + c == r@.len() * c) by (nonlinear_arith);
        }
    }
    r
}

/// The work ranges cover every item exactly once: each index below `len`
/// lies in exactly one range.
pub proof fn law_work_split_partitions(r: Seq<(usize, usize)>, len: nat, workers: nat, item: int)
    requires
        workers >= 1,
        is_work_split(r, len, workers),
        0 <= item < len,
    ensures
        exists|k: int| 0 <= k < r.len() && (#[trigger] r[k]).0 <= item < r[k].1,
        forall|k1: int, k2: int|
            0 <= k1 < r.len() && 0 <= k2 < r.len() && (#[trigger] r[k1]).0 <= item < r[k1].1 && (#[trigger] r[k2]).0 <= item
                < r[k2].1 ==> k1 == k2,
{
    let c = chunk_size(len, workers);
    let m = r.len() as int;
    assert(m > 0);
    // The ranges are increasing and abut.
    assert forall|k1: int, k2: int| 0 <= k1 < k2 < m implies #[trigger] r[k1].1 <= #[trigger] r[k2].0 by {
        assert(r[k1].1 == (k1 + 1) * c);
        assert(r[k2].0 == k2 * c);
        assert((k1 + 1) * c <= k2 * c) by (nonlinear_arith)
            requires
                k1 + 1 <= k2,
                c >= 1,
        ;
    }
    let k = if item < r.last().0 {
        let q = item / (c as int);
        assert(q * c <= item < (q + 1) * c) by (nonlinear_arith)
            requires
                q == item / (c as int),
                c >= 1,
                item >= 0,
        ;
        assert(q < m - 1) by {
            if q >= m - 1 {
                assert(q * c >= (m - 1) * c) by (nonlinear_arith)
                    requires
                        q >= m - 1,
                        c >= 1,
                ;
            }
        }
        assert(r[q].0 == q * c);
        assert(r[q].1 == (q + 1) * c);
        q
    } else {
        m - 1
    };
    assert(r[k].0 <= item < r[k].1);
}

} // verus!

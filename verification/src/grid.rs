//! Spatial hashing for conjunction screening.
//!
//! Objects are binned into cubic cells (integer cell coordinates computed by
//! the caller from positions). A pair of objects is a screening candidate
//! when their cells touch: equal, or neighbours along any of the 26
//! directions.

use std::collections::HashMap;
use vstd::prelude::*;

use crate::indices::{indices_where, lemma_indices_where_complete, lemma_indices_where_sound};

verus! {

broadcast use vstd::std_specs::hash::group_hash_axioms;

/// Two cells touch: they differ by at most one along every axis.
pub open spec fn adjacent(a: (i32, i32, i32), b: (i32, i32, i32)) -> bool {
    &&& -1 <= a.0 - b.0 <= 1
    &&& -1 <= a.1 - b.1 <= 1
    &&& -1 <= a.2 - b.2 <= 1
}

/// A pair that satellite `i` screens: `j` is another object whose cell
/// touches the cell of `i`. Two satellites are screened once, by the one
/// with the lower index.
pub open spec fn screened_pair(cells: Seq<(i32, i32, i32)>, sat: Seq<bool>, i: int, j: int) -> bool {
    &&& 0 <= i < cells.len()
    &&& 0 <= j < cells.len()
    &&& i != j
    &&& sat[i]
    &&& (!sat[j] || i < j)
    &&& adjacent(cells[i], cells[j])
}

/// A pair with at least one satellite whose cells touch, listed lower index first.
pub open spec fn shared_pair(cells: Seq<(i32, i32, i32)>, sat: Seq<bool>, i: int, j: int) -> bool {
    &&& 0 <= i < j < cells.len()
    &&& (sat[i] || sat[j])
    &&& adjacent(cells[i], cells[j])
}

pub open spec fn wanted(cells: Seq<(i32, i32, i32)>, sat: Seq<bool>, either: bool, i: int, j: int) -> bool {
    if either {
        shared_pair(cells, sat, i, j)
    } else {
        screened_pair(cells, sat, i, j)
    }
}

/// The hash key of a cell: its three coordinates, shifted to be non-negative,
/// as the digits of a number in base 2^32.
pub open spec fn cell_key(x: int, y: int, z: int) -> int {
    (x + 0x8000_0000) * 0x1_0000_0000_0000_0000 + (y + 0x8000_0000) * 0x1_0000_0000 + (z + 0x8000_0000)
}

pub open spec fn key_of(cells: Seq<(i32, i32, i32)>, j: int) -> int {
    cell_key(cells[j].0 as int, cells[j].1 as int, cells[j].2 as int)
}

/// The objects below `m` whose cell has key `k`, in increasing order.
pub open spec fn occupants(cells: Seq<(i32, i32, i32)>, k: int, m: nat) -> Seq<usize> {
    indices_where(|j: int| key_of(cells, j) == k, m)
}

pub open spec fn in_i32(v: int) -> bool {
    i32::MIN <= v <= i32::MAX
}

proof fn lemma_cell_key_injective(x1: int, y1: int, z1: int, x2: int, y2: int, z2: int)
    requires
        in_i32(x1),
        in_i32(y1),
        in_i32(z1),
        in_i32(x2),
        in_i32(y2),
        in_i32(z2),
        cell_key(x1, y1, z1) == cell_key(x2, y2, z2),
    ensures
        x1 == x2 && y1 == y2 && z1 == z2,
{
    let a = x1 - x2;
    let b = y1 - y2;
    let c = z1 - z2;
    assert(a * 0x1_0000_0000_0000_0000 + b * 0x1_0000_0000 + c == 0);
    assert(a == 0) by (nonlinear_arith)
        requires
            a * 0x1_0000_0000_0000_0000 + b * 0x1_0000_0000 + c == 0,
            -0xffff_ffff <= b <= 0xffff_ffff,
            -0xffff_ffff <= c <= 0xffff_ffff,
    ;
    assert(b == 0) by (nonlinear_arith)
        requires
            b * 0x1_0000_0000 + c == 0,
            -0xffff_ffff <= c <= 0xffff_ffff,
    ;
}

/// The key of a cell, computed without overflow.
fn key_of_cell(x: i64, y: i64, z: i64) -> (k: u128)
    requires
        in_i32(x as int),
        in_i32(y as int),
        in_i32(z as int),
    ensures
        k as int == cell_key(x as int, y as int, z as int),
{
    let a = (x + 0x8000_0000) as u128;
    let b = (y + 0x8000_0000) as u128;
    let c = (z + 0x8000_0000) as u128;
    a * 0x1_0000_0000_0000_0000 + b * 0x1_0000_0000 + c
}

/// Bins every object into its cell: the key of each occupied cell maps to
/// its occupants in increasing order.
fn build_grid(cells: &Vec<(i32, i32, i32)>) -> (grid: HashMap<u128, Vec<usize>>)
    ensures
        forall|k: u128| #[trigger]
            grid@.contains_key(k) ==> grid@[k]@ == occupants(cells@, k as int, cells@.len()),
        forall|k: u128|
            !(#[trigger] grid@.contains_key(k)) ==> occupants(cells@, k as int, cells@.len()).len()
                == 0,
{
    let n = cells.len();
    let mut grid: HashMap<u128, Vec<usize>> = HashMap::with_capacity(n);
    let mut m: usize = 0;
    while m < n
        invariant
            n == cells@.len(),
            m <= n,
            forall|k: u128| #[trigger]
                grid@.contains_key(k) ==> grid@[k]@ == occupants(cells@, k as int, m as nat),
            forall|k: u128|
                !(#[trigger] grid@.contains_key(k)) ==> occupants(cells@, k as int, m as nat).len()
                    == 0,
        decreases n - m,
    {
        let c = cells[m];
        let key = key_of_cell(c.0 as i64, c.1 as i64, c.2 as i64);
        let ghost g0 = grid@;
        let mut members = match grid.remove(&key) {
            Some(v) => v,
            None => Vec::new(),
        };
        assert(members@ == occupants(cells@, key as int, m as nat));
        members.push(m);
        grid.insert(key, members);
        assert forall|k: u128| #[trigger] grid@.contains_key(k) implies grid@[k]@ == occupants(
            cells@,
            k as int,
            (m + 1) as nat,
        ) by {
            assert(occupants(cells@, k as int, (m + 1) as nat) == (if key_of(cells@, m as int) == k {
                occupants(cells@, k as int, m as nat).push(m)
            } else {
                occupants(cells@, k as int, m as nat)
            }));
            if k != key {
                assert(g0.contains_key(k));
            }
        }
        assert forall|k: u128| !(#[trigger] grid@.contains_key(k)) implies occupants(
            cells@,
            k as int,
            (m + 1) as nat,
        ).len() == 0 by {
            assert(occupants(cells@, k as int, (m + 1) as nat) == (if key_of(cells@, m as int) == k {
                occupants(cells@, k as int, m as nat).push(m)
            } else {
                occupants(cells@, k as int, m as nat)
            }));
        }
        m = m + 1;
    }
    grid
}

/// The `o`-th of the 27 neighbour offsets, in the order `dx`, `dy`, `dz`
/// each from -1 to 1, `dx` outermost.
pub open spec fn offset(o: int) -> (int, int, int) {
    (o / 9 - 1, (o / 3) % 3 - 1, o % 3 - 1)
}

pub open spec fn offset_index(d0: int, d1: int, d2: int) -> int {
    (d0 + 1) * 9 + (d1 + 1) * 3 + (d2 + 1)
}

proof fn lemma_offset_roundtrip(o: int)
    requires
        0 <= o < 27,
    ensures
        -1 <= offset(o).0 <= 1,
        -1 <= offset(o).1 <= 1,
        -1 <= offset(o).2 <= 1,
        offset_index(offset(o).0, offset(o).1, offset(o).2) == o,
{
}

proof fn lemma_offset_index_roundtrip(d0: int, d1: int, d2: int)
    requires
        -1 <= d0 <= 1,
        -1 <= d1 <= 1,
        -1 <= d2 <= 1,
    ensures
        0 <= offset_index(d0, d1, d2) < 27,
        offset(offset_index(d0, d1, d2)) == (d0, d1, d2),
{
}

/// The position, among the 27 offsets, of the step from the cell of `i`
/// to the cell of `j`.
pub open spec fn delta_index(cells: Seq<(i32, i32, i32)>, i: int, j: int) -> int {
    offset_index(
        cells[j].0 - cells[i].0,
        cells[j].1 - cells[i].1,
        cells[j].2 - cells[i].2,
    )
}

/// Object `j` has been examined from `i` once offsets `0..o` are done and
/// `seen` has been examined at offset `o`.
pub open spec fn examined(cells: Seq<(i32, i32, i32)>, i: int, j: int, o: int, seen: Seq<usize>) -> bool {
    &&& adjacent(cells[i], cells[j])
    &&& (delta_index(cells, i, j) < o || (delta_index(cells, i, j) == o && seen.contains(j as usize)))
}

pub open spec fn cell_is(c: (i32, i32, i32), x: int, y: int, z: int) -> bool {
    c.0 == x && c.1 == y && c.2 == z
}

proof fn lemma_occupants(cells: Seq<(i32, i32, i32)>, key: int, x: int, y: int, z: int)
    requires
        cells.len() <= usize::MAX,
        in_i32(x),
        in_i32(y),
        in_i32(z),
        key == cell_key(x, y, z),
    ensures
        forall|t: int|
            0 <= t < occupants(cells, key, cells.len()).len() ==> {
                let j = #[trigger] occupants(cells, key, cells.len())[t];
                j < cells.len() && cell_is(cells[j as int], x, y, z)
            },
        forall|t1: int, t2: int|
            0 <= t1 < t2 < occupants(cells, key, cells.len()).len() ==> #[trigger] occupants(
                cells,
                key,
                cells.len(),
            )[t1] < #[trigger] occupants(cells, key, cells.len())[t2],
        forall|j: int|
            0 <= j < cells.len() && #[trigger] cell_is(cells[j], x, y, z) ==> occupants(
                cells,
                key,
                cells.len(),
            ).contains(j as usize),
{
    let pred = |j: int| key_of(cells, j) == key;
    lemma_indices_where_sound(pred, cells.len());
    assert forall|t: int| 0 <= t < occupants(cells, key, cells.len()).len() implies {
        let j = #[trigger] occupants(cells, key, cells.len())[t];
        j < cells.len() && cell_is(cells[j as int], x, y, z)
    } by {
        let j = occupants(cells, key, cells.len())[t] as int;
        assert(pred(j));
        lemma_cell_key_injective(
            cells[j].0 as int,
            cells[j].1 as int,
            cells[j].2 as int,
            x,
            y,
            z,
        );
    }
    assert forall|j: int| 0 <= j < cells.len() && #[trigger] cell_is(cells[j], x, y, z) implies occupants(
        cells,
        key,
        cells.len(),
    ).contains(j as usize) by {
        lemma_indices_where_complete(pred, cells.len(), j);
    }
}

/// Every pair `(i, j)` whose cells touch and that `wanted` selects: a
/// screened pair, or (when `either`) a shared pair.
/// Each such pair is listed once.
fn grid_pairs(cells: &Vec<(i32, i32, i32)>, sat: &Vec<bool>, either: bool) -> (r: Vec<(usize, usize)>)
    requires
        cells@.len() == sat@.len(),
    ensures
        forall|t: int| 0 <= t < r@.len() ==> wanted(cells@, sat@, either, (#[trigger] r@[t]).0 as int, r@[t].1 as int),
        forall|i: int, j: int| #[trigger] wanted(cells@, sat@, either, i, j) ==> r@.contains((i as usize, j as usize)),
        forall|t1: int, t2: int| 0 <= t1 < t2 < r@.len() ==> (#[trigger] r@[t1]).0 <= (#[trigger] r@[t2]).0,
        r@.no_duplicates(),
{
    let grid = build_grid(cells);
    let n = cells.len();
    let mut r: Vec<(usize, usize)> = Vec::new();
    let mut i: usize = 0;
    while i < n
        invariant
            n == cells@.len(),
            n == sat@.len(),
            i <= n,
            forall|k: u128| #[trigger]
                grid@.contains_key(k) ==> grid@[k]@ == occupants(cells@, k as int, cells@.len()),
            forall|k: u128|
                !(#[trigger] grid@.contains_key(k)) ==> occupants(cells@, k as int, cells@.len()).len()
                    == 0,
            forall|t: int| 0 <= t < r@.len() ==> wanted(cells@, sat@, either, (#[trigger] r@[t]).0 as int, r@[t].1 as int),
            forall|t: int| 0 <= t < r@.len() ==> (#[trigger] r@[t]).0 < i,
            forall|t1: int, t2: int| 0 <= t1 < t2 < r@.len() ==> (#[trigger] r@[t1]).0 <= (#[trigger] r@[t2]).0,
            forall|i2: int, j: int| 0 <= i2 < i && #[trigger] wanted(cells@, sat@, either, i2, j) ==> r@.contains((i2 as usize, j as usize)),
            r@.no_duplicates(),
        decreases n - i,
    {
        if sat[i] || either {
            let home = cells[i];
            let mut o: usize = 0;
            while o < 27
                invariant
                    n == cells@.len(),
                    n == sat@.len(),
                    i < n,
                    home == cells@[i as int],
                    sat@[i as int] || either,
                    o <= 27,
                    forall|k: u128| #[trigger]
                        grid@.contains_key(k) ==> grid@[k]@ == occupants(cells@, k as int, cells@.len()),
                    forall|k: u128|
                        !(#[trigger] grid@.contains_key(k)) ==> occupants(cells@, k as int, cells@.len()).len()
                            == 0,
                    forall|t: int| 0 <= t < r@.len() ==> wanted(cells@, sat@, either, (#[trigger] r@[t]).0 as int, r@[t].1 as int),
                    forall|t: int| 0 <= t < r@.len() ==> (#[trigger] r@[t]).0 < i || (r@[t].0 == i
                        && examined(cells@, i as int, r@[t].1 as int, o as int, Seq::empty())),
                    forall|i2: int, j: int| 0 <= i2 < i && #[trigger] wanted(cells@, sat@, either, i2, j) ==> r@.contains((i2 as usize, j as usize)),
                    forall|j: int| #[trigger] wanted(cells@, sat@, either, i as int, j) && examined(cells@, i as int, j, o as int, Seq::empty()) ==> r@.contains((i as usize, j as usize)),
                    forall|t1: int, t2: int| 0 <= t1 < t2 < r@.len() ==> (#[trigger] r@[t1]).0 <= (#[trigger] r@[t2]).0,
                    r@.no_duplicates(),
                decreases 27 - o,
            {
                let ghost og = o as int;
                proof {
                    lemma_offset_roundtrip(og);
                }
                let dx = (o / 9) as i64 - 1;
                let dy = ((o / 3) % 3) as i64 - 1;
                let dz = (o % 3) as i64 - 1;
                let nx = home.0 as i64 + dx;
                let ny = home.1 as i64 + dy;
                let nz = home.2 as i64 + dz;
                let ghost no_one_there = true;
                if nx >= -2147483648 && nx <= 2147483647 && ny >= -2147483648 && ny <= 2147483647
                    && nz >= -2147483648 && nz <= 2147483647 {
                    let key = key_of_cell(nx, ny, nz);
                    proof {
                        lemma_occupants(cells@, key as int, nx as int, ny as int, nz as int);
                    }
                    match grid.get(&key) {
                        Some(occ) => {
                            let ghost occs = occupants(cells@, key as int, cells@.len());
                            assert(occ@ == occs);
                            let mut t: usize = 0;
                            while t < occ.len()
                                invariant
                                    n == cells@.len(),
                                    n == sat@.len(),
                                    i < n,
                                    home == cells@[i as int],
                                    sat@[i as int] || either,
                                    o < 27,
                                    og == o as int,
                                    nx == home.0 + offset(og).0,
                                    ny == home.1 + offset(og).1,
                                    nz == home.2 + offset(og).2,
                                    occ@ == occs,
                                    t <= occ@.len(),
                                    forall|tt: int| 0 <= tt < occs.len() ==> {
                                        let j = #[trigger] occs[tt];
                                        j < cells@.len() && cell_is(cells@[j as int], nx as int, ny as int, nz as int)
                                    },
                                    forall|t1: int, t2: int| 0 <= t1 < t2 < occs.len() ==> #[trigger] occs[t1] < #[trigger] occs[t2],
                                    forall|tt: int| 0 <= tt < r@.len() ==> wanted(cells@, sat@, either, (#[trigger] r@[tt]).0 as int, r@[tt].1 as int),
                                    forall|tt: int| 0 <= tt < r@.len() ==> (#[trigger] r@[tt]).0 < i || (r@[tt].0 == i
                                        && examined(cells@, i as int, r@[tt].1 as int, o as int, occs.take(t as int))),
                                    forall|i2: int, j: int| 0 <= i2 < i && #[trigger] wanted(cells@, sat@, either, i2, j) ==> r@.contains((i2 as usize, j as usize)),
                                    forall|j: int| #[trigger] wanted(cells@, sat@, either, i as int, j) && examined(cells@, i as int, j, o as int, occs.take(t as int)) ==> r@.contains((i as usize, j as usize)),
                                    forall|t1: int, t2: int| 0 <= t1 < t2 < r@.len() ==> (#[trigger] r@[t1]).0 <= (#[trigger] r@[t2]).0,
                                    r@.no_duplicates(),
                                decreases occ@.len() - t,
                            {
                                let j = occ[t];
                                let ghost jj = j as int;
                                let ghost r_before = r@;
                                assert(cell_is(cells@[jj], nx as int, ny as int, nz as int));
                                proof {
                                    lemma_offset_index_roundtrip(offset(og).0, offset(og).1, offset(og).2);
                                }
                                assert(delta_index(cells@, i as int, jj) == og);
                                assert(!occs.take(t as int).contains(j)) by {
                                    if occs.take(t as int).contains(j) {
                                        let w = choose|w: int| 0 <= w < t && occs.take(t as int)[w] == j;
                                        assert(occs[w] < occs[t as int]);
                                    }
                                }
                                assert(occs.take(t + 1) =~= occs.take(t as int).push(j));
                                let keep = if either {
                                    i < j && (sat[i] || sat[j])
                                } else {
                                    i != j && (!sat[j] || i < j)
                                };
                                if keep {
                                    assert(wanted(cells@, sat@, either, i as int, jj));
                                    assert(!r@.contains((i, j))) by {
                                        if r@.contains((i, j)) {
                                            let w = choose|w: int| 0 <= w < r@.len() && r@[w] == (i, j);
                                            assert(examined(cells@, i as int, jj, o as int, occs.take(t as int)));
                                        }
                                    }
                                    r.push((i, j));
                                    assert(r@[r@.len() - 1] == (i, j));
                                    assert forall|x: (usize, usize)| r_before.contains(x) implies #[trigger] r@.contains(x) by {
                                        let w = choose|w: int| 0 <= w < r_before.len() && r_before[w] == x;
                                        assert(r@[w] == x);
                                    }
                                } else {
                                    assert(!wanted(cells@, sat@, either, i as int, jj));
                                }
                                assert forall|tt: int| 0 <= tt < r@.len() implies (#[trigger] r@[tt]).0 < i || (r@[tt].0 == i
                                    && examined(cells@, i as int, r@[tt].1 as int, o as int, occs.take(t + 1))) by {
                                    if r@[tt].1 == j {
                                        assert(occs.take(t + 1)[t as int] == j);
                                    } else if r@[tt].0 == i && delta_index(cells@, i as int, r@[tt].1 as int) == og {
                                        let w = choose|w: int| 0 <= w < t && #[trigger] occs.take(t as int)[w] == r@[tt].1;
                                        assert(occs.take(t + 1)[w] == r@[tt].1);
                                    }
                                }
                                assert forall|j2: int| #[trigger] wanted(cells@, sat@, either, i as int, j2) && examined(cells@, i as int, j2, o as int, occs.take(t + 1)) implies r@.contains((i as usize, j2 as usize)) by {
                                    if j2 != jj && delta_index(cells@, i as int, j2) == og {
                                        let w = choose|w: int| 0 <= w < t + 1 && #[trigger] occs.take(t + 1)[w] == j2 as usize;
                                        assert(w != t);
                                        assert(occs.take(t as int)[w] == j2 as usize);
                                    }
                                }
                                t = t + 1;
                            }
                            assert(occs.take(occ@.len() as int) =~= occs);
                            assert forall|j: int| #[trigger] wanted(cells@, sat@, either, i as int, j) && examined(cells@, i as int, j, o + 1, Seq::empty()) implies r@.contains((i as usize, j as usize)) by {
                                if delta_index(cells@, i as int, j) == og {
                                    lemma_offset_index_roundtrip(
                                        cells@[j].0 - cells@[i as int].0,
                                        cells@[j].1 - cells@[i as int].1,
                                        cells@[j].2 - cells@[i as int].2,
                                    );
                                    assert(cell_is(cells@[j], nx as int, ny as int, nz as int));
                                }
                            }
                            assert forall|tt: int| 0 <= tt < r@.len() implies (#[trigger] r@[tt]).0 < i || (r@[tt].0 == i
                                && examined(cells@, i as int, r@[tt].1 as int, o + 1, Seq::empty())) by {
                            }
                        },
                        None => {
                            assert forall|j: int| #[trigger] wanted(cells@, sat@, either, i as int, j) && examined(cells@, i as int, j, o + 1, Seq::empty()) implies r@.contains((i as usize, j as usize)) by {
                                if delta_index(cells@, i as int, j) == og {
                                    lemma_offset_index_roundtrip(
                                        cells@[j].0 - cells@[i as int].0,
                                        cells@[j].1 - cells@[i as int].1,
                                        cells@[j].2 - cells@[i as int].2,
                                    );
                                    assert(cell_is(cells@[j], nx as int, ny as int, nz as int));
                                    assert(occupants(cells@, key as int, cells@.len()).contains(j as usize));
                                }
                            }
                        },
                    }
                } else {
                    assert forall|j: int| #[trigger] wanted(cells@, sat@, either, i as int, j) && examined(cells@, i as int, j, o + 1, Seq::empty()) implies r@.contains((i as usize, j as usize)) by {
                        if delta_index(cells@, i as int, j) == og {
                            lemma_offset_index_roundtrip(
                                cells@[j].0 - cells@[i as int].0,
                                cells@[j].1 - cells@[i as int].1,
                                cells@[j].2 - cells@[i as int].2,
                            );
                        }
                    }
                }
                o = o + 1;
            }
            assert forall|j: int| #[trigger] wanted(cells@, sat@, either, i as int, j) implies r@.contains((i as usize, j as usize)) by {
                lemma_offset_index_roundtrip(
                    cells@[j].0 - cells@[i as int].0,
                    cells@[j].1 - cells@[i as int].1,
                    cells@[j].2 - cells@[i as int].2,
                );
                assert(examined(cells@, i as int, j, 27, Seq::empty()));
            }
        }
        i = i + 1;
    }
    r
}

/// The candidate pairs of a population binned into cells: every satellite
/// `i` against every other object `j` whose cell touches the cell of `i`,
/// whichever index comes first; two satellites are paired once, lower index
/// first. Pairs are listed by increasing first index. `cells[i]` is the cell
/// of object `i`.
pub fn neighbour_pairs(cells: &Vec<(i32, i32, i32)>, is_satellite: &Vec<bool>) -> (r: Vec<(usize, usize)>)
    requires
        cells@.len() == is_satellite@.len(),
    ensures
        forall|t: int|
            0 <= t < r@.len() ==> screened_pair(cells@, is_satellite@, (#[trigger] r@[t]).0 as int, r@[t].1 as int),
        forall|i: int, j: int| #[trigger]
            screened_pair(cells@, is_satellite@, i, j) ==> r@.contains((i as usize, j as usize)),
        forall|t1: int, t2: int| 0 <= t1 < t2 < r@.len() ==> (#[trigger] r@[t1]).0 <= (#[trigger] r@[t2]).0,
        r@.no_duplicates(),
{
    let r = grid_pairs(cells, is_satellite, false);
    assert forall|i: int, j: int| #[trigger] screened_pair(cells@, is_satellite@, i, j) implies r@.contains(
        (i as usize, j as usize),
    ) by {
        assert(wanted(cells@, is_satellite@, false, i, j));
    }
    assert forall|t: int| 0 <= t < r@.len() implies screened_pair(
        cells@,
        is_satellite@,
        (#[trigger] r@[t]).0 as int,
        r@[t].1 as int,
    ) by {
        assert(wanted(cells@, is_satellite@, false, r@[t].0 as int, r@[t].1 as int));
    }
    r
}

/// The candidate pairs of a population binned into cells: every pair of
/// objects with at least one satellite whose cells touch, each pair once,
/// lower index first, listed by increasing lower index.
pub fn shared_neighbour_pairs(cells: &Vec<(i32, i32, i32)>, is_satellite: &Vec<bool>) -> (r: Vec<
    (usize, usize),
>)
    requires
        cells@.len() == is_satellite@.len(),
    ensures
        forall|t: int|
            0 <= t < r@.len() ==> shared_pair(cells@, is_satellite@, (#[trigger] r@[t]).0 as int, r@[t].1 as int),
        forall|i: int, j: int| #[trigger]
            shared_pair(cells@, is_satellite@, i, j) ==> r@.contains((i as usize, j as usize)),
        forall|t1: int, t2: int| 0 <= t1 < t2 < r@.len() ==> (#[trigger] r@[t1]).0 <= (#[trigger] r@[t2]).0,
        r@.no_duplicates(),
{
    let r = grid_pairs(cells, is_satellite, true);
    assert forall|i: int, j: int| #[trigger] shared_pair(cells@, is_satellite@, i, j) implies r@.contains(
        (i as usize, j as usize),
    ) by {
        assert(wanted(cells@, is_satellite@, true, i, j));
    }
    assert forall|t: int| 0 <= t < r@.len() implies shared_pair(
        cells@,
        is_satellite@,
        (#[trigger] r@[t]).0 as int,
        r@[t].1 as int,
    ) by {
        assert(wanted(cells@, is_satellite@, true, r@[t].0 as int, r@[t].1 as int));
    }
    r
}

/// Objects in the same cell touch: a satellite and any other object that
/// share its cell are a candidate pair, whichever comes first.
pub proof fn law_same_cell_is_candidate(cells: Seq<(i32, i32, i32)>, sat: Seq<bool>, i: int, j: int)
    requires
        0 <= i < cells.len(),
        0 <= j < cells.len(),
        i != j,
        sat[i],
        !sat[j],
        cells[i] == cells[j],
    ensures
        screened_pair(cells, sat, i, j),
        shared_pair(cells, sat, if i < j { i } else { j }, if i < j { j } else { i }),
{
}

/// Every pair of distinct objects with at least one satellite whose cells
/// touch is screened exactly once, in exactly one of its two orders, with a
/// satellite first.
pub proof fn law_touching_pair_screened_once(cells: Seq<(i32, i32, i32)>, sat: Seq<bool>, i: int, j: int)
    requires
        0 <= i < cells.len(),
        0 <= j < cells.len(),
        i != j,
        sat[i] || sat[j],
        adjacent(cells[i], cells[j]),
    ensures
        screened_pair(cells, sat, i, j) != screened_pair(cells, sat, j, i),
        screened_pair(cells, sat, i, j) ==> sat[i],
{
}

/// Touching is symmetric, so a shared pair does not depend on which of the
/// two objects is the satellite.
pub proof fn law_adjacent_symmetric(a: (i32, i32, i32), b: (i32, i32, i32))
    ensures
        adjacent(a, b) == adjacent(b, a),
{
}

/// Every pair of objects with a satellite in it whose cells differ by at most
/// one along every axis is a candidate, two satellites as much as a satellite
/// and a debris object: the shared search lists it lower index first, and the
/// satellite search lists it from a satellite.
pub proof fn law_satellite_pairs_are_candidates(cells: Seq<(i32, i32, i32)>, sat: Seq<bool>, i: int, j: int)
    requires
        cells.len() == sat.len(),
        0 <= i < j < cells.len(),
        sat[i] || sat[j],
        -1 <= cells[i].0 - cells[j].0 <= 1,
        -1 <= cells[i].1 - cells[j].1 <= 1,
        -1 <= cells[i].2 - cells[j].2 <= 1,
    ensures
        shared_pair(cells, sat, i, j),
        sat[i] ==> screened_pair(cells, sat, i, j),
        !sat[i] ==> screened_pair(cells, sat, j, i),
        sat[i] && sat[j] ==> screened_pair(cells, sat, i, j) && !screened_pair(cells, sat, j, i),
{
}

/// Only touching pairs with a satellite in them are candidates: two debris
/// objects are never paired, nor are objects whose cells are two or more
/// apart along some axis, nor an object with itself; a satellite search pair
/// starts with a satellite, and a shared pair is listed lower index first.
pub proof fn law_candidates_need_a_satellite_and_contact(
    cells: Seq<(i32, i32, i32)>,
    sat: Seq<bool>,
    i: int,
    j: int,
)
    requires
        cells.len() == sat.len(),
    ensures
        shared_pair(cells, sat, i, j) || screened_pair(cells, sat, i, j) ==> {
            &&& 0 <= i < cells.len()
            &&& 0 <= j < cells.len()
            &&& i != j
            &&& sat[i] || sat[j]
            &&& -1 <= cells[i].0 - cells[j].0 <= 1
            &&& -1 <= cells[i].1 - cells[j].1 <= 1
            &&& -1 <= cells[i].2 - cells[j].2 <= 1
        },
        screened_pair(cells, sat, i, j) ==> sat[i],
        shared_pair(cells, sat, i, j) ==> i < j,
{
}

} // verus!

//! Per-tick bookkeeping of the board that is made on integers: how crowded
//! every cell is, and which pairs of bacteria that share a cell may mate.

use vstd::prelude::*;
use std::collections::HashMap;

verus! {

broadcast use vstd::std_specs::hash::group_hash_axioms;

/// How many of the first `k` entries of `s` equal `x`.
pub open spec fn count_prefix(s: Seq<usize>, x: usize, k: int) -> nat
    decreases k,
{
    if k <= 0 {
        0
    } else {
        count_prefix(s, x, k - 1) + if s[k - 1] == x { 1nat } else { 0nat }
    }
}

/// How many entries of `s` equal `x`.
pub open spec fn count_of(s: Seq<usize>, x: usize) -> nat {
    count_prefix(s, x, s.len() as int)
}

/// Crowding of a cell: the number of bacteria on it, saturated at 255.
pub open spec fn crowding_value(positions: Seq<usize>, cell: usize) -> u8 {
    if count_of(positions, cell) > 255 {
        255
    } else {
        count_of(positions, cell) as u8
    }
}

/// Resets the crowding of every cell and counts the bacteria that now stand
/// on it, saturating at 255.
pub fn update_crowding(crowding: &mut Vec<u8>, positions: &Vec<usize>)
    requires
        forall|i: int| 0 <= i < positions@.len() ==> (#[trigger] positions@[i]) < old(crowding)@.len(),
    ensures
        final(crowding)@.len() == old(crowding)@.len(),
        forall|c: int|
            0 <= c < final(crowding)@.len() ==> #[trigger] final(crowding)@[c] == crowding_value(
                positions@,
                c as usize,
            ),
{
    let n = crowding.len();
    let mut c: usize = 0;
    while c < n
        invariant
            n == crowding@.len(),
            c <= n,
            forall|d: int| 0 <= d < c ==> #[trigger] crowding@[d] == 0,
        decreases n - c,
    {
        crowding.set(c, 0);
        c = c + 1;
    }
    let m = positions.len();
    let mut k: usize = 0;
    while k < m
        invariant
            n == crowding@.len(),
            m == positions@.len(),
            forall|i: int| 0 <= i < m ==> (#[trigger] positions@[i]) < n,
            k <= m,
            forall|d: int|
                0 <= d < n ==> #[trigger] crowding@[d] as int == (if count_prefix(positions@, d as usize, k as int)
                    > 255 {
                    255
                } else {
                    count_prefix(positions@, d as usize, k as int)
                }),
        decreases m - k,
    {
        let p = positions[k];
        let v = crowding[p];
        crowding.set(p, v.saturating_add(1));
        proof {
            assert forall|d: int| 0 <= d < n implies #[trigger] crowding@[d] as int == (if count_prefix(
                positions@,
                d as usize,
                k + 1,
            ) > 255 {
                255
            } else {
                count_prefix(positions@, d as usize, k + 1)
            }) by {
                assert(count_prefix(positions@, d as usize, k + 1) == count_prefix(positions@, d as usize, k as int)
                    + if positions@[k as int] == d as usize { 1nat } else { 0nat });
            }
        }
        k = k + 1;
    }
}

/// Sum of the counts of the cells `0..m`.
pub open spec fn cells_total(s: Seq<usize>, m: int) -> nat
    decreases m,
{
    if m <= 0 {
        0
    } else {
        cells_total(s, m - 1) + count_of(s, (m - 1) as usize)
    }
}

proof fn lemma_count_prefix_push(t: Seq<usize>, v: usize, x: usize, k: int)
    requires
        0 <= k <= t.len(),
    ensures
        count_prefix(t.push(v), x, k) == count_prefix(t, x, k),
    decreases k,
{
    if k > 0 {
        lemma_count_prefix_push(t, v, x, k - 1);
    }
}

proof fn lemma_cells_total_push(t: Seq<usize>, v: usize, m: int)
    requires
        0 <= m <= usize::MAX as int + 1,
    ensures
        cells_total(t.push(v), m) == cells_total(t, m) + if (v as int) < m { 1nat } else { 0nat },
    decreases m,
{
    if m > 0 {
        lemma_cells_total_push(t, v, m - 1);
        let c = (m - 1) as usize;
        lemma_count_prefix_push(t, v, c, t.len() as int);
        assert(count_of(t.push(v), c) == count_of(t, c) + if v == c { 1nat } else { 0nat });
    }
}

/// Every bacterium on the grid is counted on exactly one cell: over the
/// cells `0..m`, the per-cell counts (which `update_crowding` writes as they
/// are while they stay below 256) add up to the number of bacteria.
pub proof fn lemma_counts_add_up(positions: Seq<usize>, m: int)
    requires
        0 <= m <= usize::MAX as int + 1,
        forall|i: int| 0 <= i < positions.len() ==> (#[trigger] positions[i] as int) < m,
    ensures
        cells_total(positions, m) == positions.len(),
    decreases positions.len(),
{
    if positions.len() == 0 {
        lemma_cells_total_empty(positions, m);
    } else {
        let t = positions.drop_last();
        assert forall|i: int| 0 <= i < t.len() implies (#[trigger] t[i] as int) < m by {
            assert(t[i] == positions[i]);
        }
        lemma_counts_add_up(t, m);
        lemma_cells_total_push(t, positions.last(), m);
        assert(t.push(positions.last()) =~= positions);
    }
}

proof fn lemma_cells_total_empty(s: Seq<usize>, m: int)
    requires
        s.len() == 0,
    ensures
        cells_total(s, m) == 0,
    decreases m,
{
    if m > 0 {
        lemma_cells_total_empty(s, m - 1);
    }
}

/// Two bacteria `i < j` may mate when they stand on the same cell and
/// neither is cooling down from an earlier birth.
pub open spec fn eligible(positions: Seq<usize>, cooldowns: Seq<u32>, i: int, j: int) -> bool {
    &&& 0 <= i < j < positions.len()
    &&& positions[i] == positions[j]
    &&& cooldowns[i] == 0
    &&& cooldowns[j] == 0
}

pub open spec fn pair_before(p: (usize, usize), q: (usize, usize)) -> bool {
    p.0 < q.0 || (p.0 == q.0 && p.1 < q.1)
}

/// Every pair of bacteria that may mate, in increasing order (by the first
/// bacterium, then by the second): each eligible pair exactly once.
pub fn encounter_pairs(positions: &Vec<usize>, cooldowns: &Vec<u32>) -> (r: Vec<(usize, usize)>)
    requires
        positions@.len() == cooldowns@.len(),
    ensures
        forall|t: int|
            0 <= t < r@.len() ==> eligible(positions@, cooldowns@, (#[trigger] r@[t]).0 as int, r@[t].1 as int),
        forall|i: int, j: int|
            eligible(positions@, cooldowns@, i, j) ==> exists|t: int|
                0 <= t < r@.len() && #[trigger] r@[t] == (i as usize, j as usize),
        forall|t: int, u: int| 0 <= t < u < r@.len() ==> pair_before(#[trigger] r@[t], #[trigger] r@[u]),
{
    let n = positions.len();
    let mut out: Vec<(usize, usize)> = Vec::new();
    let mut a: usize = 0;
    while a < n
        invariant
            n == positions@.len(),
            n == cooldowns@.len(),
            a <= n,
            forall|t: int|
                0 <= t < out@.len() ==> eligible(positions@, cooldowns@, (#[trigger] out@[t]).0 as int, out@[t].1 as int)
                && out@[t].0 < a,
            forall|t: int, u: int| 0 <= t < u < out@.len() ==> pair_before(#[trigger] out@[t], #[trigger] out@[u]),
            forall|i: int, j: int|
                eligible(positions@, cooldowns@, i, j) && i < a
                    ==> exists|t: int| 0 <= t < out@.len() && #[trigger] out@[t] == (i as usize, j as usize),
        decreases n - a,
    {
        if cooldowns[a] == 0 {
            let mut b: usize = a + 1;
            while b < n
                invariant
                    n == positions@.len(),
                    n == cooldowns@.len(),
                    cooldowns@[a as int] == 0,
                    a < n,
                    a < b <= n,
                    forall|t: int|
                        0 <= t < out@.len() ==> eligible(positions@, cooldowns@, (#[trigger] out@[t]).0 as int, out@[t].1 as int)
                        && (out@[t].0 < a || (out@[t].0 == a && out@[t].1 < b)),
                    forall|t: int, u: int| 0 <= t < u < out@.len() ==> pair_before(#[trigger] out@[t], #[trigger] out@[u]),
                    forall|i: int, j: int|
                        eligible(positions@, cooldowns@, i, j) && (i < a || (i == a && j < b))
                            ==> exists|t: int| 0 <= t < out@.len() && #[trigger] out@[t] == (i as usize, j as usize),
                decreases n - b,
            {
                if positions[a] == positions[b] && cooldowns[b] == 0 {
                    let ghost before = out@;
                    out.push((a, b));
                    proof {
                        assert forall|t: int| 0 <= t < out@.len() implies eligible(positions@, cooldowns@, (#[trigger] out@[t]).0 as int, out@[t].1 as int)
                            && (out@[t].0 < a || (out@[t].0 == a && out@[t].1 < b + 1)) by {
                            if t < before.len() {
                                assert(out@[t] == before[t]);
                            }
                        }
                        assert forall|t: int, u: int| 0 <= t < u < out@.len() implies pair_before(#[trigger] out@[t], #[trigger] out@[u]) by {
                            assert(out@[t] == before[t]);
                            if u < before.len() {
                                assert(out@[u] == before[u]);
                            }
                        }
                        assert forall|i: int, j: int|
                            eligible(positions@, cooldowns@, i, j) && (i < a || (i == a && j < b + 1))
                            implies exists|t: int| 0 <= t < out@.len() && #[trigger] out@[t] == (i as usize, j as usize) by {
                            if i == a && j == b {
                                assert(out@[before.len() as int] == (i as usize, j as usize));
                            } else {
                                let t = choose|t: int| 0 <= t < before.len() && #[trigger] before[t] == (i as usize, j as usize);
                                assert(out@[t] == before[t]);
                            }
                        }
                    }
                }
                b = b + 1;
            }
        }
        a = a + 1;
    }
    out
}

/// The bacteria among the first `k` that stand on `c`, in increasing order.
pub open spec fn indices_upto(positions: Seq<usize>, c: usize, k: int) -> Seq<usize>
    decreases k,
{
    if k <= 0 {
        Seq::empty()
    } else if positions[k - 1] == c {
        indices_upto(positions, c, k - 1).push((k - 1) as usize)
    } else {
        indices_upto(positions, c, k - 1)
    }
}

/// The bacteria grouped by the cell they stand on.
fn group_by_cell(positions: &Vec<usize>) -> (m: HashMap<usize, Vec<usize>>)
    ensures
        forall|c: usize| #[trigger] m@.contains_key(c) ==> m@[c]@ == indices_upto(positions@, c, positions@.len() as int),
        forall|c: usize| !m@.contains_key(c) ==> #[trigger] indices_upto(positions@, c, positions@.len() as int).len() == 0,
{
    let n = positions.len();
    let mut m: HashMap<usize, Vec<usize>> = HashMap::new();
    let mut i: usize = 0;
    while i < n
        invariant
            n == positions@.len(),
            i <= n,
            forall|c: usize| #[trigger] m@.contains_key(c) ==> m@[c]@ == indices_upto(positions@, c, i as int),
            forall|c: usize| !m@.contains_key(c) ==> #[trigger] indices_upto(positions@, c, i as int).len() == 0,
        decreases n - i,
    {
        let p = positions[i];
        let mut idxs = match m.remove(&p) {
            Some(v) => v,
            None => Vec::new(),
        };
        idxs.push(i);
        m.insert(p, idxs);
        proof {
            assert forall|c: usize| #[trigger] m@.contains_key(c) implies m@[c]@ == indices_upto(positions@, c, i + 1) by {
                assert(indices_upto(positions@, c, i + 1) == if positions@[i as int] == c {
                    indices_upto(positions@, c, i as int).push(i)
                } else {
                    indices_upto(positions@, c, i as int)
                });
            }
            assert forall|c: usize| !m@.contains_key(c) implies #[trigger] indices_upto(positions@, c, i + 1).len() == 0 by {
                assert(indices_upto(positions@, c, i + 1) == if positions@[i as int] == c {
                    indices_upto(positions@, c, i as int).push(i)
                } else {
                    indices_upto(positions@, c, i as int)
                });
            }
        }
        i = i + 1;
    }
    m
}


proof fn lemma_indices_upto(positions: Seq<usize>, c: usize, k: int)
    requires
        0 <= k <= positions.len(),
        positions.len() <= usize::MAX,
    ensures
        forall|t: int| 0 <= t < indices_upto(positions, c, k).len() ==> (#[trigger] indices_upto(positions, c, k)[t]) < k
            && positions[indices_upto(positions, c, k)[t] as int] == c,
        forall|t: int, u: int| 0 <= t < u < indices_upto(positions, c, k).len() ==> #[trigger] indices_upto(positions, c, k)[t]
            < #[trigger] indices_upto(positions, c, k)[u],
        forall|x: int| 0 <= x < k && positions[x] == c ==> exists|t: int| 0 <= t < indices_upto(positions, c, k).len()
            && #[trigger] indices_upto(positions, c, k)[t] == x,
    decreases k,
{
    if k > 0 {
        lemma_indices_upto(positions, c, k - 1);
        let p = indices_upto(positions, c, k - 1);
        let g = indices_upto(positions, c, k);
        if positions[k - 1] == c {
            assert(g == p.push((k - 1) as usize));
            assert forall|x: int| 0 <= x < k && positions[x] == c implies exists|t: int| 0 <= t < g.len() && #[trigger] g[t] == x by {
                if x == k - 1 {
                    assert(g[p.len() as int] == x);
                } else {
                    let t = choose|t: int| 0 <= t < p.len() && #[trigger] p[t] == x;
                    assert(g[t] == p[t]);
                }
            }
        } else {
            assert(g == p);
        }
    }
}


/// The group's `a`-th bacterium, or `n` past its end.
pub open spec fn group_bound(g: Seq<usize>, a: int, n: int) -> int {
    if a < g.len() { g[a] as int } else { n }
}

/// Appends, in increasing order, every eligible pair of the bacteria `idxs`
/// that stand on `cell`.
fn append_group_pairs(
    positions: &Vec<usize>,
    cooldowns: &Vec<u32>,
    cell: usize,
    idxs: &Vec<usize>,
    out: &mut Vec<(usize, usize)>,
)
    requires
        positions@.len() == cooldowns@.len(),
        idxs@ == indices_upto(positions@, cell, positions@.len() as int),
    ensures
        final(out)@.len() >= old(out)@.len(),
        final(out)@.subrange(0, old(out)@.len() as int) == old(out)@,
        forall|t: int|
            old(out)@.len() <= t < final(out)@.len() ==> eligible(positions@, cooldowns@, (#[trigger] final(out)@[t]).0 as int, final(out)@[t].1 as int)
            && positions@[final(out)@[t].0 as int] == cell,
        forall|t: int, u: int|
            old(out)@.len() <= t < u < final(out)@.len() ==> pair_before(#[trigger] final(out)@[t], #[trigger] final(out)@[u]),
        forall|i: int, j: int|
            eligible(positions@, cooldowns@, i, j) && positions@[i] == cell
                ==> exists|t: int| old(out)@.len() <= t < final(out)@.len() && #[trigger] final(out)@[t] == (i as usize, j as usize),
{
    let n = positions.len();
    proof {
        lemma_indices_upto(positions@, cell, n as int);
    }
    let ghost g = idxs@;
    let ghost base = old(out)@.len() as int;
    let glen = idxs.len();
    let mut a: usize = 0;
    while a < glen
        invariant
            n == positions@.len(),
            n == cooldowns@.len(),
            g == idxs@,
            glen == g.len(),
            a <= glen,
            forall|t: int| 0 <= t < g.len() ==> (#[trigger] g[t]) < n && positions@[g[t] as int] == cell,
            forall|t: int, u: int| 0 <= t < u < g.len() ==> #[trigger] g[t] < #[trigger] g[u],
            forall|x: int| 0 <= x < n && positions@[x] == cell ==> exists|t: int| 0 <= t < g.len() && #[trigger] g[t] == x,
            base == old(out)@.len(),
            out@.len() >= base,
            out@.subrange(0, base) == old(out)@,
            forall|t: int|
                base <= t < out@.len() ==> eligible(positions@, cooldowns@, (#[trigger] out@[t]).0 as int, out@[t].1 as int)
                && positions@[out@[t].0 as int] == cell && out@[t].0 < group_bound(g, a as int, n as int),
            forall|t: int, u: int| base <= t < u < out@.len() ==> pair_before(#[trigger] out@[t], #[trigger] out@[u]),
            forall|i: int, j: int|
                eligible(positions@, cooldowns@, i, j) && positions@[i] == cell && i < group_bound(g, a as int, n as int)
                    ==> exists|t: int| base <= t < out@.len() && #[trigger] out@[t] == (i as usize, j as usize),
        decreases glen - a,
    {
        let ia = idxs[a];
        if cooldowns[ia] == 0 {
            let mut b: usize = a + 1;
            while b < glen
                invariant
                    n == positions@.len(),
                    n == cooldowns@.len(),
                    g == idxs@,
                    glen == g.len(),
                    a < b <= glen,
                    ia == g[a as int],
                    cooldowns@[ia as int] == 0,
                    forall|t: int| 0 <= t < g.len() ==> (#[trigger] g[t]) < n && positions@[g[t] as int] == cell,
                    forall|t: int, u: int| 0 <= t < u < g.len() ==> #[trigger] g[t] < #[trigger] g[u],
                    forall|x: int| 0 <= x < n && positions@[x] == cell ==> exists|t: int| 0 <= t < g.len() && #[trigger] g[t] == x,
                    base == old(out)@.len(),
                    out@.len() >= base,
                    out@.subrange(0, base) == old(out)@,
                    forall|t: int|
                        base <= t < out@.len() ==> eligible(positions@, cooldowns@, (#[trigger] out@[t]).0 as int, out@[t].1 as int)
                        && positions@[out@[t].0 as int] == cell && (out@[t].0 < ia || (out@[t].0 == ia && out@[t].1 < group_bound(g, b as int, n as int))),
                    forall|t: int, u: int| base <= t < u < out@.len() ==> pair_before(#[trigger] out@[t], #[trigger] out@[u]),
                    forall|i: int, j: int|
                        eligible(positions@, cooldowns@, i, j) && positions@[i] == cell && (i < ia || (i == ia && j < group_bound(g, b as int, n as int)))
                            ==> exists|t: int| base <= t < out@.len() && #[trigger] out@[t] == (i as usize, j as usize),
                decreases glen - b,
            {
                let ib = idxs[b];
                if cooldowns[ib] == 0 {
                    let ghost before = out@;
                    out.push((ia, ib));
                    assert(out@[out@.len() - 1] == (ia, ib));
                    assert forall|i: int, j: int|
                        eligible(positions@, cooldowns@, i, j) && positions@[i] == cell && (i < ia || (i == ia && j < group_bound(g, b as int, n as int)))
                        implies exists|t: int| base <= t < out@.len() && #[trigger] out@[t] == (i as usize, j as usize) by {
                        let t = choose|t: int| base <= t < before.len() && #[trigger] before[t] == (i as usize, j as usize);
                        assert(out@[t] == before[t]);
                    }
                    proof {
                        assert(g[a as int] < g[b as int]);
                        assert(out@.subrange(0, base) =~= before.subrange(0, base));
                        assert forall|t: int| base <= t < out@.len() implies eligible(positions@, cooldowns@, (#[trigger] out@[t]).0 as int, out@[t].1 as int)
                            && positions@[out@[t].0 as int] == cell && (out@[t].0 < ia || (out@[t].0 == ia && out@[t].1 < group_bound(g, b + 1, n as int))) by {
                            if t < before.len() {
                                assert(out@[t] == before[t]);
                            }
                            if b + 1 < g.len() {
                                assert(g[b as int] < g[b + 1]);
                            }
                        }
                        assert forall|t: int, u: int| base <= t < u < out@.len() implies pair_before(#[trigger] out@[t], #[trigger] out@[u]) by {
                            assert(out@[t] == before[t]);
                            if u < before.len() {
                                assert(out@[u] == before[u]);
                            }
                        }
                    }
                }
                let ghost before2 = out@;
                proof {
                    assert forall|i: int, j: int|
                        eligible(positions@, cooldowns@, i, j) && positions@[i] == cell && (i < ia || (i == ia && j < group_bound(g, b + 1, n as int)))
                        implies exists|t: int| base <= t < out@.len() && #[trigger] out@[t] == (i as usize, j as usize) by {
                        if i == ia && j >= group_bound(g, b as int, n as int) {
                            assert(positions@[j] == cell);
                            let u = choose|u: int| 0 <= u < g.len() && #[trigger] g[u] == j;
                            if u > b {
                                assert(g[b + 1] <= g[u]) by {
                                    if b + 1 < u { assert(g[b + 1] < g[u]); }
                                }
                            }
                            if u < b {
                                assert(g[u] < g[b as int]);
                            }
                            assert(u == b);
                            assert(cooldowns@[ib as int] == 0);
                            let t = out@.len() - 1;
                            assert(out@[t] == (i as usize, j as usize));
                        }
                    }
                }
                b = b + 1;
            }
        }
        proof {
            assert forall|t: int|
                base <= t < out@.len() implies eligible(positions@, cooldowns@, (#[trigger] out@[t]).0 as int, out@[t].1 as int)
                && positions@[out@[t].0 as int] == cell && out@[t].0 < group_bound(g, a + 1, n as int) by {
                if a + 1 < g.len() {
                    assert(g[a as int] < g[a + 1]);
                }
            }
            assert forall|i: int, j: int|
                eligible(positions@, cooldowns@, i, j) && positions@[i] == cell && i < group_bound(g, a + 1, n as int)
                implies exists|t: int| base <= t < out@.len() && #[trigger] out@[t] == (i as usize, j as usize) by {
                let u = choose|u: int| 0 <= u < g.len() && #[trigger] g[u] == i;
                if u > a {
                    assert(g[a + 1] <= g[u]) by {
                        if a + 1 < u { assert(g[a + 1] < g[u]); }
                    }
                }
                if u < a {
                    assert(g[u] < g[a as int]);
                }
            }
        }
        a = a + 1;
    }
}


/// Whether one of the first `k` entries of a walk of the map is `c`'s.
pub open spec fn cell_done(s: Seq<(&usize, &Vec<usize>)>, k: int, c: usize) -> bool {
    exists|t: int| 0 <= t < k && *(#[trigger] s[t]).0 == c
}

/// The pairs of bacteria that may mate this tick, given where each one
/// stands and its cooldown: the bacteria are grouped by cell in a hash map,
/// and the map's cells are walked in its own order. Every eligible pair comes
/// out exactly once, the pairs of a cell one after another and in increasing
/// order. The order of the cells is the map's, and is not fixed.
pub fn mating_candidates(positions: &Vec<usize>, cooldowns: &Vec<u32>) -> (r: Vec<(usize, usize)>)
    requires
        positions@.len() == cooldowns@.len(),
    ensures
        forall|t: int|
            0 <= t < r@.len() ==> eligible(positions@, cooldowns@, (#[trigger] r@[t]).0 as int, r@[t].1 as int),
        forall|i: int, j: int|
            eligible(positions@, cooldowns@, i, j) ==> exists|t: int|
                0 <= t < r@.len() && #[trigger] r@[t] == (i as usize, j as usize),
        forall|t: int, u: int|
            0 <= t < u < r@.len() && positions@[r@[t].0 as int] == positions@[r@[u].0 as int]
                ==> pair_before(#[trigger] r@[t], #[trigger] r@[u]),
        forall|t: int, v: int, u: int|
            #![trigger r@[t], r@[v], r@[u]]
            0 <= t < v < u < r@.len() && positions@[r@[t].0 as int] == positions@[r@[u].0 as int]
                ==> positions@[r@[v].0 as int] == positions@[r@[t].0 as int],
        forall|t: int, u: int| 0 <= t < u < r@.len() ==> #[trigger] r@[t] != #[trigger] r@[u],
{
    let m = group_by_cell(positions);
    let ghost n = positions@.len() as int;
    assert(n == positions.len());
    let mut out: Vec<(usize, usize)> = Vec::new();
    let ghost mut done: Set<usize> = Set::empty();
    for kv in it: m.iter()
        invariant
            positions@.len() == cooldowns@.len(),
            n == positions@.len(),
            n <= usize::MAX,
            it.seq().no_duplicates(),
            forall|c: usize| #[trigger] done.contains(c) <==> cell_done(it.seq(), it.index(), c),
            it.index() >= it.seq().len() ==> forall|c: usize| #[trigger] m@.contains_key(c) ==> done.contains(c),
            forall|c: usize| #[trigger] m@.contains_key(c) ==> m@[c]@ == indices_upto(positions@, c, n),
            forall|t: int|
                0 <= t < out@.len() ==> eligible(positions@, cooldowns@, (#[trigger] out@[t]).0 as int, out@[t].1 as int),
            forall|t: int|
                0 <= t < out@.len() ==> done.contains(positions@[(#[trigger] out@[t]).0 as int]),
            forall|i: int, j: int|
                eligible(positions@, cooldowns@, i, j) && done.contains(positions@[i])
                    ==> exists|t: int| 0 <= t < out@.len() && #[trigger] out@[t] == (i as usize, j as usize),
            forall|t: int, u: int|
                0 <= t < u < out@.len() && positions@[out@[t].0 as int] == positions@[out@[u].0 as int]
                    ==> pair_before(#[trigger] out@[t], #[trigger] out@[u]),
            forall|t: int, v: int, u: int|
                #![trigger out@[t], out@[v], out@[u]]
                0 <= t < v < u < out@.len() && positions@[out@[t].0 as int] == positions@[out@[u].0 as int]
                    ==> positions@[out@[v].0 as int] == positions@[out@[t].0 as int],
    {
        let ghost k = it.index();
        let ghost sq = it.seq();
        let ghost prev = out@;
        assert(kv == sq[k]);
        let (cell, idxs) = kv;
        assert(m@.contains_key(*cell));
        assert(m@[*cell] == *idxs);
        append_group_pairs(positions, cooldowns, *cell, idxs, &mut out);
        proof {
            done = done.insert(*cell);
            assert forall|c: usize| #[trigger] done.contains(c) <==> cell_done(sq, k + 1, c) by {
                if cell_done(sq, k + 1, c) && c != *cell {
                    let w = choose|w: int| 0 <= w < k + 1 && *(#[trigger] sq[w]).0 == c;
                    assert(w < k);
                }
                if c == *cell {
                    assert(*sq[k].0 == c);
                }
            }
            if k + 1 >= sq.len() {
                assert forall|c: usize| #[trigger] m@.contains_key(c) implies done.contains(c) by {
                    assert(sq.contains((&c, &m@[c])));
                    let w = choose|w: int| 0 <= w < sq.len() && sq[w] == (&c, &m@[c]);
                    assert(*sq[w].0 == c);
                    assert(cell_done(sq, k + 1, c));
                }
            }
            assert(sq.no_duplicates());
            assert forall|t: int| 0 <= t < k implies *(#[trigger] sq[t]).0 != *cell by {
                if *sq[t].0 == *cell {
                    assert(m@.contains_key(*sq[t].0) && m@[*sq[t].0] == *sq[t].1);
                    assert(sq[t] == sq[k]);
                }
            }
            assert forall|t: int| 0 <= t < out@.len() implies eligible(positions@, cooldowns@, (#[trigger] out@[t]).0 as int, out@[t].1 as int) by {
                if t < prev.len() {
                    assert(out@[t] == prev[t]);
                }
            }
            assert forall|t: int| 0 <= t < out@.len() implies cell_done(sq, k + 1, positions@[(#[trigger] out@[t]).0 as int]) by {
                if t < prev.len() {
                    assert(out@[t] == prev[t]);
                    let w = choose|w: int| 0 <= w < k && *(#[trigger] sq[w]).0 == positions@[prev[t].0 as int];
                    assert(*sq[w].0 == positions@[out@[t].0 as int]);
                } else {
                    assert(*sq[k].0 == positions@[out@[t].0 as int]);
                }
            }
            assert forall|i: int, j: int|
                eligible(positions@, cooldowns@, i, j) && cell_done(sq, k + 1, positions@[i])
                implies exists|t: int| 0 <= t < out@.len() && #[trigger] out@[t] == (i as usize, j as usize) by {
                if cell_done(sq, k, positions@[i]) {
                    let t = choose|t: int| 0 <= t < prev.len() && #[trigger] prev[t] == (i as usize, j as usize);
                    assert(out@[t] == prev[t]);
                } else {
                    let w = choose|w: int| 0 <= w < k + 1 && *(#[trigger] sq[w]).0 == positions@[i];
                    assert(w == k);
                }
            }
            assert forall|t: int, u: int|
                0 <= t < u < out@.len() && positions@[out@[t].0 as int] == positions@[out@[u].0 as int]
                implies pair_before(#[trigger] out@[t], #[trigger] out@[u]) by {
                if t < prev.len() && u >= prev.len() {
                    assert(out@[t] == prev[t]);
                    let w = choose|w: int| 0 <= w < k && *(#[trigger] sq[w]).0 == positions@[prev[t].0 as int];
                    assert(*sq[w].0 == *cell);
                }
                if u < prev.len() {
                    assert(out@[t] == prev[t] && out@[u] == prev[u]);
                }
            }
            assert forall|t: int, v: int, u: int|
                #![trigger out@[t], out@[v], out@[u]]
                0 <= t < v < u < out@.len() && positions@[out@[t].0 as int] == positions@[out@[u].0 as int]
                implies positions@[out@[v].0 as int] == positions@[out@[t].0 as int] by {
                if t < prev.len() && u >= prev.len() {
                    assert(out@[t] == prev[t]);
                    let w = choose|w: int| 0 <= w < k && *(#[trigger] sq[w]).0 == positions@[prev[t].0 as int];
                    assert(*sq[w].0 == *cell);
                }
                if u < prev.len() {
                    assert(out@[t] == prev[t] && out@[u] == prev[u] && out@[v] == prev[v]);
                }
                if t >= prev.len() {
                    assert(positions@[out@[v].0 as int] == *cell);
                }
            }
        }
    }
    proof {
        assert forall|i: int, j: int| eligible(positions@, cooldowns@, i, j) implies exists|t: int|
            0 <= t < out@.len() && #[trigger] out@[t] == (i as usize, j as usize) by {
            let c = positions@[i];
            lemma_indices_upto(positions@, c, n);
            let u = choose|u: int| 0 <= u < indices_upto(positions@, c, n).len() && #[trigger] indices_upto(positions@, c, n)[u] == i;
            assert(m@.contains_key(c));
            assert(done.contains(c));
        }
        assert forall|t: int, u: int| 0 <= t < u < out@.len() implies #[trigger] out@[t] != #[trigger] out@[u] by {
            if out@[t] == out@[u] {
                assert(pair_before(out@[t], out@[u]));
            }
        }
    }
    out
}


} // verus!

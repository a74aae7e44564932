//! Sorting, deduplicating and grouping by position. The operations work on
//! the positions of a list, keyed by what the list holds there, and leave it
//! to the caller to move the items.

use crate::names::views;
use itertools::Itertools;
use vstd::prelude::*;

verus! {

/// Position `p` sorts before position `q`: it holds the greater depth, or
/// the same depth and is the earlier.
pub open spec fn sorts_before(depths: Seq<i32>, p: usize, q: usize) -> bool {
    depths[p as int] > depths[q as int] || (depths[p as int] == depths[q as int] && p < q)
}

/// `order` lists every position of `depths` so that depths descend, and
/// positions of equal depth keep their order.
pub open spec fn is_stable_descending_order(depths: Seq<i32>, order: Seq<usize>) -> bool {
    &&& order.len() == depths.len()
    &&& forall|i: int| 0 <= i < order.len() ==> (#[trigger] order[i]) < depths.len()
    &&& forall|p: usize| p < depths.len() ==> #[trigger] order.contains(p)
    &&& forall|i: int, j: int|
        0 <= i < j < order.len() ==> sorts_before(depths, #[trigger] order[i], #[trigger] order[j])
}

/// The positions at which a key occurs for the first time, ascending.
pub open spec fn first_positions(keys: Seq<Seq<char>>) -> Seq<usize>
    decreases keys.len(),
{
    if keys.len() == 0 {
        Seq::empty()
    } else {
        let earlier = first_positions(keys.drop_last());
        if keys.drop_last().contains(keys.last()) {
            earlier
        } else {
            earlier.push((keys.len() - 1) as usize)
        }
    }
}

/// The runs of equal neighbours: the value of each run and its length.
pub open spec fn runs(depths: Seq<i32>) -> Seq<(i32, nat)>
    decreases depths.len(),
{
    if depths.len() == 0 {
        Seq::empty()
    } else {
        let earlier = runs(depths.drop_last());
        if earlier.len() > 0 && earlier.last().0 == depths.last() {
            earlier.drop_last().push((earlier.last().0, earlier.last().1 + 1))
        } else {
            earlier.push((depths.last(), 1nat))
        }
    }
}

/// A list of runs with their lengths as natural numbers.
pub open spec fn run_views(out: Seq<(i32, usize)>) -> Seq<(i32, nat)> {
    out.map_values(|r: (i32, usize)| (r.0, r.1 as nat))
}

/// The key by which a depth sorts so that greater depths come first.
pub fn descending_key(depth: i32) -> (key: i64)
    ensures
        key == -depth,
{
    -(depth as i64)
}

/// `Itertools::sorted_by_key` on the positions of `depths`, keyed by the
/// negated depth. The contract claims what its documentation says: the
/// positions come out sorted by their key, ascending, so by depth
/// descending, and the sort is stable. Being a sort, it returns each
/// position once.
#[verifier::external_body]
pub(crate) fn stable_descending_order(depths: &Vec<i32>) -> (order: Vec<usize>)
    ensures
        is_stable_descending_order(depths@, order@),
{
    (0..depths.len()).sorted_by_key(|at| descending_key(depths[*at])).collect()
}

/// `Itertools::unique_by` on the positions of `keys`, keyed by the text at
/// each. The contract claims what its documentation says: of the positions
/// that hold the same key the first is kept, and the kept ones stay in
/// order.
#[verifier::external_body]
pub(crate) fn first_of_each(keys: &Vec<String>) -> (firsts: Vec<usize>)
    ensures
        firsts@ == first_positions(views(keys@)),
{
    (0..keys.len()).unique_by(|at| keys[*at].clone()).collect()
}

/// `Itertools::chunk_by` on `depths`, keyed by the depth itself, each chunk
/// counted. The contract claims what its documentation says: neighbours
/// that are equal form one chunk.
#[verifier::external_body]
pub(crate) fn equal_runs(depths: &Vec<i32>) -> (out: Vec<(i32, usize)>)
    ensures
        run_views(out@) == runs(depths@),
{
    let chunks = depths.iter().chunk_by(|depth| **depth);
    (&chunks).into_iter().map(|(depth, chunk)| (depth, chunk.count())).collect()
}

/// The first positions are positions of the list, ascending; each holds a
/// key that no earlier position holds, and every such position is among
/// them.
pub proof fn first_positions_are_exact(keys: Seq<Seq<char>>)
    requires
        keys.len() <= usize::MAX,
    ensures
        forall|k: int|
            0 <= k < first_positions(keys).len() ==> (#[trigger] first_positions(keys)[k])
                < keys.len(),
        forall|k: int, j: int|
            0 <= k < first_positions(keys).len() && 0 <= j < first_positions(keys)[k]
                ==> #[trigger] keys[j] != keys[#[trigger] first_positions(keys)[k] as int],
        forall|k: int, l: int|
            0 <= k < l < first_positions(keys).len() ==> (#[trigger] first_positions(keys)[k])
                < #[trigger] first_positions(keys)[l],
        forall|i: usize|
            i < keys.len() && !keys.take(i as int).contains(keys[i as int])
                ==> #[trigger] first_positions(keys).contains(i),
    decreases keys.len(),
{
    if keys.len() > 0 {
        let before = keys.drop_last();
        let last = (keys.len() - 1) as usize;
        first_positions_are_exact(before);
        let f = first_positions(keys);
        let e = first_positions(before);
        assert forall|k: int, j: int| 0 <= k < f.len() && 0 <= j < f[k] implies #[trigger] keys[j]
            != keys[#[trigger] f[k] as int] by {
            if k < e.len() {
                assert(e[k] < before.len());
                assert(before[j] != before[e[k] as int]);
            } else {
                assert(before[j] == keys[j]);
            }
        }
        assert forall|i: usize|
            i < keys.len() && !keys.take(i as int).contains(keys[i as int]) implies #[trigger] f.contains(
            i,
        ) by {
            if i < before.len() {
                assert(before.take(i as int) =~= keys.take(i as int));
                assert(e.contains(i));
                let k = choose|k: int| 0 <= k < e.len() && e[k] == i;
                assert(f[k] == i);
            } else {
                assert(keys.take(i as int) =~= before);
                assert(f[f.len() - 1] == i);
            }
        }
    }
}

/// The start of a run: the lengths of the runs before it, added up.
pub open spec fn run_start(lengths: Seq<(i32, nat)>, k: int) -> nat
    decreases k,
{
    if k <= 0 {
        0
    } else {
        run_start(lengths, k - 1) + lengths[k - 1].1
    }
}

/// Position `p` lies in run `k`.
pub open spec fn in_run(lengths: Seq<(i32, nat)>, k: int, p: int) -> bool {
    0 <= k < lengths.len() && run_start(lengths, k) <= p < run_start(lengths, k) + lengths[k].1
}

/// The runs cover the list, one after the other; none is empty; each holds
/// one value only; and neighbouring runs differ.
pub proof fn runs_are_exact(depths: Seq<i32>)
    ensures
        run_start(runs(depths), runs(depths).len() as int) == depths.len(),
        forall|k: int| 0 <= k < runs(depths).len() ==> (#[trigger] runs(depths)[k]).1 > 0,
        forall|k: int, p: int| #[trigger]
            in_run(runs(depths), k, p) ==> p < depths.len() && depths[p] == runs(depths)[k].0,
        forall|k: int, l: int|
            0 <= k && l == k + 1 && l < runs(depths).len() ==> (#[trigger] runs(depths)[k]).0
                != (#[trigger] runs(depths)[l]).0,
    decreases depths.len(),
{
    if depths.len() > 0 {
        let before = depths.drop_last();
        runs_are_exact(before);
        let r = runs(depths);
        let e = runs(before);
        assert forall|k: int| 0 <= k <= e.len() - 1 implies run_start(r, k) == run_start(e, k) by {
            same_starts(r, e, k);
        }
        if e.len() > 0 && e.last().0 == depths.last() {
            assert(r.len() == e.len());
            assert(run_start(r, r.len() as int) == run_start(r, r.len() - 1) + r[r.len() - 1].1);
            assert(run_start(e, e.len() as int) == run_start(e, e.len() - 1) + e[e.len() - 1].1);
            assert forall|k: int, p: int| #[trigger] in_run(r, k, p) implies p < depths.len()
                && depths[p] == r[k].0 by {
                if k < r.len() - 1 {
                    assert(r[k] == e[k]);
                    assert(in_run(e, k, p));
                } else if p < run_start(e, k) + e[k].1 {
                    assert(in_run(e, k, p));
                } else {
                }
            }
            assert forall|k: int, l: int| 0 <= k && l == k + 1 && l < r.len() implies (#[trigger] r[k]).0
                != (#[trigger] r[l]).0 by {
                assert(e[k].0 != e[l].0);
            }
        } else {
            assert(r.len() == e.len() + 1);
            same_starts(r, e, e.len() as int);
            assert(run_start(r, r.len() as int) == run_start(r, r.len() - 1) + r[r.len() - 1].1);
            assert forall|k: int, p: int| #[trigger] in_run(r, k, p) implies p < depths.len()
                && depths[p] == r[k].0 by {
                if k < r.len() - 1 {
                    assert(r[k] == e[k]);
                    same_starts(r, e, k);
                    assert(in_run(e, k, p));
                }
            }
            assert forall|k: int, l: int| 0 <= k && l == k + 1 && l < r.len() implies (#[trigger] r[k]).0
                != (#[trigger] r[l]).0 by {
                if l < e.len() {
                    assert(e[k].0 != e[l].0);
                } else {
                    if e.len() > 0 {
                        assert(r[k] == e[k]);
                        assert(e.last() == e[k]);
                    }
                }
            }
        }
    }
}

/// Two lists of runs that agree on their first `k` runs agree on where run
/// `k` starts.
proof fn same_starts(a: Seq<(i32, nat)>, b: Seq<(i32, nat)>, k: int)
    requires
        0 <= k <= a.len(),
        k <= b.len(),
        forall|i: int| 0 <= i < k ==> a[i] == b[i],
    ensures
        run_start(a, k) == run_start(b, k),
    decreases k,
{
    if k > 0 {
        same_starts(a, b, k - 1);
    }
}

/// Every key of the list is the key at one of the first positions.
pub proof fn first_positions_cover(keys: Seq<Seq<char>>, i: int)
    requires
        keys.len() <= usize::MAX,
        0 <= i < keys.len(),
    ensures
        exists|k: int|
            0 <= k < first_positions(keys).len() && first_positions(keys)[k] < keys.len()
                && keys[#[trigger] first_positions(keys)[k] as int] == keys[i],
    decreases keys.len(),
{
    let before = keys.drop_last();
    let f = first_positions(keys);
    let e = first_positions(before);
    first_positions_are_exact(keys);
    if i < keys.len() - 1 {
        first_positions_cover(before, i);
        let k = choose|k: int|
            0 <= k < e.len() && e[k] < before.len() && before[#[trigger] e[k] as int] == before[i];
        assert(f[k] == e[k]);
    } else if before.contains(keys.last()) {
        let j = choose|j: int| 0 <= j < before.len() && before[j] == keys.last();
        first_positions_cover(before, j);
        let k = choose|k: int|
            0 <= k < e.len() && e[k] < before.len() && before[#[trigger] e[k] as int] == before[j];
        assert(f[k] == e[k]);
    } else {
        assert(f[f.len() - 1] == (keys.len() - 1) as usize);
    }
}

/// Run `k` starts inside the list, at a position that holds the value of
/// the run, and the next run starts where it ends.
pub proof fn run_starts_with_its_value(depths: Seq<i32>, k: int)
    requires
        0 <= k < runs(depths).len(),
    ensures
        run_start(runs(depths), k) < depths.len(),
        depths[run_start(runs(depths), k) as int] == runs(depths)[k].0,
        run_start(runs(depths), k + 1) == run_start(runs(depths), k) + runs(depths)[k].1,
        runs(depths)[k].1 > 0,
{
    let r = runs(depths);
    runs_are_exact(depths);
    assert(r[k].1 > 0);
    assert(in_run(r, k, run_start(r, k) as int));
}

/// Neighbouring runs differ in value.
pub proof fn neighbouring_runs_differ(depths: Seq<i32>, k: int)
    requires
        0 <= k < runs(depths).len() - 1,
    ensures
        runs(depths)[k].0 != runs(depths)[k + 1].0,
{
    let r = runs(depths);
    runs_are_exact(depths);
    assert(r[k].0 != r[k + 1].0);
}

/// Two lists that hold the same members, each in the order `before`, are the
/// same list, provided that of two members at most one comes before the
/// other, and none before itself.
pub proof fn same_members_same_order<A>(x: Seq<A>, y: Seq<A>, before: spec_fn(A, A) -> bool)
    requires
        forall|p: A, q: A| #![trigger before(p, q)] !(before(p, q) && before(q, p)),
        forall|k: int, l: int| 0 <= k < l < x.len() ==> before(#[trigger] x[k], #[trigger] x[l]),
        forall|k: int, l: int| 0 <= k < l < y.len() ==> before(#[trigger] y[k], #[trigger] y[l]),
        forall|p: A| x.contains(p) <==> y.contains(p),
    ensures
        x == y,
    decreases x.len(),
{
    if x.len() == 0 {
        if y.len() > 0 {
            assert(y.contains(y[0]));
            assert(x.contains(y[0]));
        }
        assert(x =~= y);
    } else {
        let a = x.last();
        assert(x.contains(a));
        let j = choose|j: int| 0 <= j < y.len() && y[j] == a;
        let b = y.last();
        assert(y.contains(b));
        let i = choose|i: int| 0 <= i < x.len() && x[i] == b;
        if j < y.len() - 1 {
            assert(before(y[j], y[y.len() - 1]));
            if i < x.len() - 1 {
                assert(before(x[i], x[x.len() - 1]));
            }
            assert(!(before(a, b) && before(b, a)));
            assert(false);
        }
        assert(a == b);
        let xs = x.drop_last();
        let ys = y.drop_last();
        assert forall|p: A| xs.contains(p) <==> ys.contains(p) by {
            if xs.contains(p) {
                let k = choose|k: int| 0 <= k < xs.len() && xs[k] == p;
                assert(before(x[k], x[x.len() - 1]));
                assert(!(before(p, a) && before(a, p)));
                assert(x.contains(p));
                let l = choose|l: int| 0 <= l < y.len() && y[l] == p;
                assert(ys[l] == p);
            }
            if ys.contains(p) {
                let k = choose|k: int| 0 <= k < ys.len() && ys[k] == p;
                assert(before(y[k], y[y.len() - 1]));
                assert(!(before(p, b) && before(b, p)));
                assert(y.contains(p));
                let l = choose|l: int| 0 <= l < x.len() && x[l] == p;
                assert(xs[l] == p);
            }
        }
        assert forall|k: int, l: int| 0 <= k < l < xs.len() implies before(
            #[trigger] xs[k],
            #[trigger] xs[l],
        ) by {
            assert(before(x[k], x[l]));
        }
        assert forall|k: int, l: int| 0 <= k < l < ys.len() implies before(
            #[trigger] ys[k],
            #[trigger] ys[l],
        ) by {
            assert(before(y[k], y[l]));
        }
        same_members_same_order(xs, ys, before);
        assert(x =~= xs.push(a));
        assert(y =~= ys.push(b));
    }
}

/// A list has one stable descending order only.
pub proof fn stable_descending_order_is_unique(depths: Seq<i32>, a: Seq<usize>, b: Seq<usize>)
    requires
        is_stable_descending_order(depths, a),
        is_stable_descending_order(depths, b),
    ensures
        a == b,
{
    assert forall|p: usize| a.contains(p) <==> b.contains(p) by {
        if a.contains(p) {
            let k = choose|k: int| 0 <= k < a.len() && a[k] == p;
            assert(a[k] < depths.len());
        }
        if b.contains(p) {
            let k = choose|k: int| 0 <= k < b.len() && b[k] == p;
            assert(b[k] < depths.len());
        }
    }
    let before = |p: usize, q: usize| sorts_before(depths, p, q);
    assert forall|k: int, l: int| 0 <= k < l < a.len() implies before(
        #[trigger] a[k],
        #[trigger] a[l],
    ) by {
        assert(sorts_before(depths, a[k], a[l]));
    }
    assert forall|k: int, l: int| 0 <= k < l < b.len() implies before(
        #[trigger] b[k],
        #[trigger] b[l],
    ) by {
        assert(sorts_before(depths, b[k], b[l]));
    }
    same_members_same_order(a, b, before);
}

} // verus!

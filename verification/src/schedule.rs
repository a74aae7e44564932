//! The build schedule. Every package base is built once, at the greatest
//! depth at which one of its split packages is needed, and deeper package
//! bases are built and installed before shallower ones.

use crate::names::owned;
use crate::names::views;
use crate::positions::equal_runs;
use crate::positions::first_of_each;
use crate::positions::first_positions;
use crate::positions::first_positions_are_exact;
use crate::positions::in_run;
use crate::positions::is_stable_descending_order;
use crate::positions::run_start;
use crate::positions::run_views;
use crate::positions::runs;
use crate::positions::neighbouring_runs_differ;
use crate::positions::run_starts_with_its_value;
use crate::positions::runs_are_exact;
use crate::positions::same_members_same_order;
use crate::positions::sorts_before;
use crate::positions::stable_descending_order;
use vstd::prelude::*;

verus! {

/// A split package with the package base that builds it and the depth at
/// which it is needed.
#[derive(Clone, Debug, PartialEq, Eq)]
pub struct Package {
    pub pkgbase: String,
    pub depth: i32,
    pub split: String,
}

/// A [`Package`] with its names as character sequences.
pub struct PackageView {
    pub pkgbase: Seq<char>,
    pub depth: int,
    pub split: Seq<char>,
}

impl View for Package {
    type V = PackageView;

    open spec fn view(&self) -> PackageView {
        PackageView { pkgbase: self.pkgbase@, depth: self.depth as int, split: self.split@ }
    }
}

/// The views of a list of packages.
pub open spec fn package_views(packages: Seq<Package>) -> Seq<PackageView> {
    packages.map_values(|p: Package| p@)
}

/// The package bases that are built and installed together: all those
/// scheduled at one depth, each with the split package that put it there.
#[derive(Clone, Debug, PartialEq, Eq)]
pub struct DepthGroup {
    pub depth: i32,
    pub packages: Vec<Package>,
}

/// A [`DepthGroup`] with its packages as views.
pub struct DepthGroupView {
    pub depth: int,
    pub packages: Seq<PackageView>,
}

impl View for DepthGroup {
    type V = DepthGroupView;

    open spec fn view(&self) -> DepthGroupView {
        DepthGroupView { depth: self.depth as int, packages: package_views(self.packages@) }
    }
}

/// The views of a list of groups.
pub open spec fn group_views(groups: Seq<DepthGroup>) -> Seq<DepthGroupView> {
    groups.map_values(|g: DepthGroup| g@)
}

/// The entry at `at` stands for its package base: no entry of that base lies
/// deeper, and none that lies as deep comes before it.
pub open spec fn stands_for_its_base(packages: Seq<PackageView>, at: int) -> bool {
    &&& 0 <= at < packages.len()
    &&& forall|j: int|
        0 <= j < packages.len() && (#[trigger] packages[j]).pkgbase == packages[at].pkgbase
            ==> packages[j].depth < packages[at].depth || (packages[j].depth
            == packages[at].depth && at <= j)
}

/// Position `p` is built before position `q`: it lies deeper, or as deep and
/// earlier.
pub open spec fn built_before(packages: Seq<PackageView>, p: int, q: int) -> bool {
    packages[p].depth > packages[q].depth || (packages[p].depth == packages[q].depth && p < q)
}

/// `at` lists the positions of the entries that stand for their package
/// base, all of them, by depth descending, and by position where the depth
/// is the same.
pub open spec fn is_build_order(packages: Seq<PackageView>, at: Seq<int>) -> bool {
    &&& forall|k: int| 0 <= k < at.len() ==> stands_for_its_base(packages, #[trigger] at[k])
    &&& forall|j: int| #[trigger] stands_for_its_base(packages, j) ==> at.contains(j)
    &&& forall|k: int, l: int|
        0 <= k < l < at.len() ==> built_before(packages, #[trigger] at[k], #[trigger] at[l])
}

/// The entries at the given positions.
pub open spec fn picked(packages: Seq<PackageView>, at: Seq<int>) -> Seq<PackageView> {
    at.map_values(|p: int| packages[p])
}

/// The packages of the groups, one group after the other.
pub open spec fn members(groups: Seq<DepthGroupView>) -> Seq<PackageView>
    decreases groups.len(),
{
    if groups.len() == 0 {
        Seq::empty()
    } else {
        members(groups.drop_last()) + groups.last().packages
    }
}

/// The groups are cut as a schedule cuts them: none is empty, the members of
/// each lie at its depth, and the depths descend strictly.
pub open spec fn is_cut_by_depth(groups: Seq<DepthGroupView>) -> bool {
    &&& forall|g: int| 0 <= g < groups.len() ==> (#[trigger] groups[g]).packages.len() > 0
    &&& forall|g: int, m: int|
        0 <= g < groups.len() && 0 <= m < groups[g].packages.len() ==> (#[trigger] groups[g].packages[m]).depth
            == groups[g].depth
    &&& forall|a: int, b: int|
        0 <= a < b < groups.len() ==> (#[trigger] groups[a]).depth > (#[trigger] groups[b]).depth
}

/// `groups` is the schedule for `packages`: its members are the entries that
/// stand for their package base, in build order; no group is empty; all
/// members of a group lie at the depth of the group; and the depths of the
/// groups descend strictly.
pub open spec fn is_schedule(packages: Seq<PackageView>, groups: Seq<DepthGroupView>) -> bool {
    &&& exists|at: Seq<int>| #[trigger]
        is_build_order(packages, at) && members(groups) == picked(packages, at)
    &&& is_cut_by_depth(groups)
}

/// The positions that a stable sort by descending depth puts first for each
/// package base are the positions of the entries that stand for their base,
/// in build order.
proof fn sorted_firsts_form_build_order(
    packages: Seq<PackageView>,
    depths: Seq<i32>,
    order: Seq<usize>,
    keys: Seq<Seq<char>>,
    at: Seq<int>,
)
    requires
        packages.len() <= usize::MAX,
        depths.len() == packages.len(),
        forall|i: int| 0 <= i < depths.len() ==> #[trigger] depths[i] == packages[i].depth,
        is_stable_descending_order(depths, order),
        keys.len() == order.len(),
        forall|i: int| 0 <= i < keys.len() ==> #[trigger] keys[i] == packages[order[i] as int].pkgbase,
        at.len() == first_positions(keys).len(),
        forall|k: int|
            0 <= k < at.len() ==> first_positions(keys)[k] < order.len() && #[trigger] at[k]
                == order[first_positions(keys)[k] as int],
    ensures
        is_build_order(packages, at),
{
    let firsts = first_positions(keys);
    first_positions_are_exact(keys);
    assert forall|k: int| 0 <= k < at.len() implies stands_for_its_base(packages, #[trigger] at[k]) by {
        let f = firsts[k] as int;
        assert(order[f] < depths.len());
        assert forall|j: int|
            0 <= j < packages.len() && (#[trigger] packages[j]).pkgbase
                == packages[at[k]].pkgbase implies packages[j].depth < packages[at[k]].depth || (
        packages[j].depth == packages[at[k]].depth && at[k] <= j) by {
            assert(order.contains(j as usize));
            let i = choose|i: int| 0 <= i < order.len() && order[i] == j as usize;
            assert(keys[i] == keys[f]);
            if i < f {
                assert(keys[i] != keys[firsts[k] as int]);
            } else if i > f {
                assert(sorts_before(depths, order[f], order[i]));
            }
        }
    }
    assert forall|j: int| #[trigger] stands_for_its_base(packages, j) implies at.contains(j) by {
        assert(order.contains(j as usize));
        let i = choose|i: int| 0 <= i < order.len() && order[i] == j as usize;
        if keys.take(i).contains(keys[i]) {
            let e = choose|e: int| 0 <= e < keys.take(i).len() && keys.take(i)[e] == keys[i];
            assert(keys[e] == keys[i]);
            let other = order[e] as int;
            assert(sorts_before(depths, order[e], order[i]));
            assert(packages[other].pkgbase == packages[j].pkgbase);
            assert(false);
        }
        assert(firsts.contains(i as usize));
        let k = choose|k: int| 0 <= k < firsts.len() && firsts[k] == i as usize;
        assert(at[k] == j);
    }
    assert forall|k: int, l: int| 0 <= k < l < at.len() implies packages[#[trigger] at[k]].depth
        > packages[#[trigger] at[l]].depth || (packages[at[k]].depth == packages[at[l]].depth
        && at[k] < at[l]) by {
        let f = firsts[k] as int;
        let g = firsts[l] as int;
        assert(firsts[k] < firsts[l]);
        assert(sorts_before(depths, order[f], order[g]));
    }
}

/// Where depths never rise along a list, the values of its runs descend
/// strictly.
proof fn runs_descend(depths: Seq<i32>, a: int, b: int)
    requires
        forall|i: int, j: int|
            0 <= i < j < depths.len() ==> (#[trigger] depths[i]) >= (#[trigger] depths[j]),
        0 <= a < b < runs(depths).len(),
    ensures
        runs(depths)[a].0 > runs(depths)[b].0,
    decreases b - a,
{
    let r = runs(depths);
    run_starts_with_its_value(depths, a);
    run_starts_with_its_value(depths, a + 1);
    neighbouring_runs_differ(depths, a);
    let p = run_start(r, a) as int;
    let q = run_start(r, a + 1) as int;
    assert(p < q);
    assert(depths[p] >= depths[q]);
    if a + 1 < b {
        runs_descend(depths, a + 1, b);
    }
}

/// A copy of `package`.
pub fn copy_package(package: &Package) -> (out: Package)
    ensures
        out@ == package@,
{
    Package {
        pkgbase: owned(package.pkgbase.as_str()),
        depth: package.depth,
        split: owned(package.split.as_str()),
    }
}

/// The depth of each package.
fn depths_of(packages: &Vec<Package>) -> (out: Vec<i32>)
    ensures
        out.len() == packages.len(),
        forall|i: int| 0 <= i < out.len() ==> #[trigger] out[i] == packages[i].depth,
{
    let mut out: Vec<i32> = Vec::new();
    let mut i: usize = 0;
    while i < packages.len()
        invariant
            i <= packages.len(),
            out.len() == i,
            forall|j: int| 0 <= j < i ==> #[trigger] out[j] == packages[j].depth,
        decreases packages.len() - i,
    {
        out.push(packages[i].depth);
        i += 1;
    }
    out
}

/// The package base found at each position of `order`.
fn bases_in_order(packages: &Vec<Package>, order: &Vec<usize>) -> (out: Vec<String>)
    requires
        forall|i: int| 0 <= i < order.len() ==> (#[trigger] order[i]) < packages.len(),
    ensures
        out.len() == order.len(),
        forall|i: int|
            0 <= i < out.len() ==> (#[trigger] out[i])@ == packages[order[i] as int].pkgbase@,
{
    let mut out: Vec<String> = Vec::new();
    let mut i: usize = 0;
    while i < order.len()
        invariant
            i <= order.len(),
            out.len() == i,
            forall|j: int| 0 <= j < order.len() ==> (#[trigger] order[j]) < packages.len(),
            forall|j: int|
                0 <= j < i ==> (#[trigger] out[j])@ == packages[order[j] as int].pkgbase@,
        decreases order.len() - i,
    {
        out.push(owned(packages[order[i]].pkgbase.as_str()));
        i += 1;
    }
    out
}

/// The positions of `order` that `firsts` points at.
fn positions_of_firsts(order: &Vec<usize>, firsts: &Vec<usize>) -> (out: Vec<usize>)
    requires
        forall|k: int| 0 <= k < firsts.len() ==> (#[trigger] firsts[k]) < order.len(),
    ensures
        out.len() == firsts.len(),
        forall|k: int| 0 <= k < out.len() ==> #[trigger] out[k] == order[firsts[k] as int],
{
    let mut out: Vec<usize> = Vec::new();
    let mut k: usize = 0;
    while k < firsts.len()
        invariant
            k <= firsts.len(),
            out.len() == k,
            forall|j: int| 0 <= j < firsts.len() ==> (#[trigger] firsts[j]) < order.len(),
            forall|j: int| 0 <= j < k ==> #[trigger] out[j] == order[firsts[j] as int],
        decreases firsts.len() - k,
    {
        out.push(order[firsts[k]]);
        k += 1;
    }
    out
}

/// The depth of the package at each of the positions.
fn depths_at(packages: &Vec<Package>, at: &Vec<usize>) -> (out: Vec<i32>)
    requires
        forall|k: int| 0 <= k < at.len() ==> (#[trigger] at[k]) < packages.len(),
    ensures
        out.len() == at.len(),
        forall|k: int| 0 <= k < out.len() ==> #[trigger] out[k] == packages[at[k] as int].depth,
{
    let mut out: Vec<i32> = Vec::new();
    let mut k: usize = 0;
    while k < at.len()
        invariant
            k <= at.len(),
            out.len() == k,
            forall|j: int| 0 <= j < at.len() ==> (#[trigger] at[j]) < packages.len(),
            forall|j: int| 0 <= j < k ==> #[trigger] out[j] == packages[at[j] as int].depth,
        decreases at.len() - k,
    {
        out.push(packages[at[k]].depth);
        k += 1;
    }
    out
}

/// The positions as integers.
pub open spec fn as_ints(at: Seq<usize>) -> Seq<int> {
    at.map_values(|p: usize| p as int)
}

/// Cuts the packages at the positions `at` into groups of the given lengths.
fn cut_into_groups(packages: &Vec<Package>, at: &Vec<usize>, lengths: &Vec<(i32, usize)>) -> (out:
    Vec<DepthGroup>)
    requires
        forall|k: int| 0 <= k < at.len() ==> (#[trigger] at[k]) < packages.len(),
        run_start(run_views(lengths@), lengths.len() as int) == at.len(),
        forall|k: int, p: int| #[trigger]
            in_run(run_views(lengths@), k, p) ==> p < at.len() && packages[at[p] as int].depth
                == lengths[k].0,
    ensures
        out.len() == lengths.len(),
        members(group_views(out@)) == picked(package_views(packages@), as_ints(at@)),
        forall|g: int|
            0 <= g < out.len() ==> (#[trigger] out[g]).depth == lengths[g].0
                && out[g].packages.len() == lengths[g].1,
        forall|g: int, m: int|
            0 <= g < out.len() && 0 <= m < out[g].packages.len() ==> (#[trigger] out[g].packages[m]).depth
                == out[g].depth,
{
    let ghost r = run_views(lengths@);
    let ghost all = picked(package_views(packages@), as_ints(at@));
    let mut out: Vec<DepthGroup> = Vec::new();
    let mut pos: usize = 0;
    let mut k: usize = 0;
    assert(members(group_views(out@)) =~= all.take(0)) by {
        assert(group_views(out@) =~= Seq::<DepthGroupView>::empty());
    }
    while k < lengths.len()
        invariant
            k <= lengths.len(),
            r == run_views(lengths@),
            all == picked(package_views(packages@), as_ints(at@)),
            forall|j: int| 0 <= j < at.len() ==> (#[trigger] at[j]) < packages.len(),
            run_start(r, lengths.len() as int) == at.len(),
            forall|j: int, p: int| #[trigger]
                in_run(r, j, p) ==> p < at.len() && packages[at[p] as int].depth == lengths[j].0,
            pos == run_start(r, k as int),
            pos <= at.len(),
            out.len() == k,
            members(group_views(out@)) == all.take(pos as int),
            forall|g: int|
                0 <= g < out.len() ==> (#[trigger] out[g]).depth == lengths[g].0
                    && out[g].packages.len() == lengths[g].1,
            forall|g: int, m: int|
                0 <= g < out.len() && 0 <= m < out[g].packages.len() ==> (#[trigger] out[g].packages[m]).depth
                    == out[g].depth,
        decreases lengths.len() - k,
    {
        let depth = lengths[k].0;
        let len = lengths[k].1;
        assert(r[k as int] == (depth, len as nat));
        proof {
            if len > 0 {
                assert(in_run(r, k as int, pos + len - 1));
            }
            assert(run_start(r, k + 1) == run_start(r, k as int) + r[k as int].1);
        }
        let mut group: Vec<Package> = Vec::new();
        let mut m: usize = 0;
        assert(package_views(group@) =~= all.subrange(pos as int, pos as int));
        while m < len
            invariant
                m <= len,
                pos + len <= at.len(),
                r == run_views(lengths@),
                k < lengths.len(),
                r[k as int] == (depth, len as nat),
                pos == run_start(r, k as int),
                all == picked(package_views(packages@), as_ints(at@)),
                forall|j: int| 0 <= j < at.len() ==> (#[trigger] at[j]) < packages.len(),
                forall|j: int, p: int| #[trigger]
                    in_run(r, j, p) ==> p < at.len() && packages[at[p] as int].depth
                        == lengths[j].0,
                group.len() == m,
                package_views(group@) == all.subrange(pos as int, pos + m),
                forall|x: int| 0 <= x < m ==> (#[trigger] group[x]).depth == depth,
            decreases len - m,
        {
            assert(in_run(r, k as int, pos + m));
            let ghost before = package_views(group@);
            let package = copy_package(&packages[at[pos + m]]);
            assert(package@ == all[pos + m]);
            group.push(package);
            m += 1;
            assert(package_views(group@) =~= before.push(all[pos + m - 1]));
            assert(all.subrange(pos as int, pos + m) =~= all.subrange(pos as int, pos + m - 1).push(
                all[pos + m - 1],
            ));
        }
        let ghost earlier = group_views(out@);
        let ghost so_far = members(earlier);
        let ghost added = package_views(group@);
        out.push(DepthGroup { depth, packages: group });
        proof {
            let now = group_views(out@);
            assert(now.drop_last() =~= earlier);
            assert(now.last().packages == added);
            assert(members(now) == so_far + added);
            assert(all.take(pos as int) + all.subrange(pos as int, pos + len) =~= all.take(
                pos + len,
            ));
        }
        pos += len;
        k += 1;
    }
    assert(all.take(pos as int) =~= all);
    out
}

/// The schedule for `packages`: the package bases to build, each once,
/// grouped by depth, deepest group first.
///
/// A package base is scheduled at the greatest depth among its entries and is
/// represented by the first entry that lies that deep. Within a group the
/// package bases keep the order of the entries that represent them.
pub fn schedule(packages: &Vec<Package>) -> (out: Vec<DepthGroup>)
    ensures
        is_schedule(package_views(packages@), group_views(out@)),
{
    let ghost all = package_views(packages@);
    let depths = depths_of(packages);
    let order = stable_descending_order(&depths);
    let keys = bases_in_order(packages, &order);
    let firsts = first_of_each(&keys);
    proof {
        first_positions_are_exact(views(keys@));
    }
    let at = positions_of_firsts(&order, &firsts);
    let ghost at_ints = as_ints(at@);
    proof {
        assert forall|i: int| 0 <= i < depths@.len() implies #[trigger] depths@[i]
            == all[i].depth by {}
        assert forall|i: int| 0 <= i < views(keys@).len() implies #[trigger] views(keys@)[i]
            == all[order@[i] as int].pkgbase by {
            assert(keys[i]@ == packages[order[i] as int].pkgbase@);
        }
        sorted_firsts_form_build_order(all, depths@, order@, views(keys@), at_ints);
    }
    let top_depths = depths_at(packages, &at);
    let lengths = equal_runs(&top_depths);
    proof {
        runs_are_exact(top_depths@);
        assert forall|k: int, p: int| #[trigger] in_run(run_views(lengths@), k, p) implies p
            < at.len() && packages[at[p] as int].depth == lengths[k].0 by {
            assert(top_depths@[p] == runs(top_depths@)[k].0);
            assert(run_views(lengths@)[k].0 == lengths[k].0);
        }
    }
    let out = cut_into_groups(packages, &at, &lengths);
    proof {
        let groups = group_views(out@);
        assert(is_build_order(all, at_ints) && members(groups) == picked(all, at_ints));
        assert forall|g: int| 0 <= g < groups.len() implies (#[trigger] groups[g]).packages.len()
            > 0 by {
            assert(out[g].packages.len() == lengths[g].1);
            assert(run_views(lengths@)[g].1 > 0);
        }
        assert forall|g: int, m: int|
            0 <= g < groups.len() && 0 <= m < groups[g].packages.len() implies (#[trigger] groups[g].packages[m]).depth
            == groups[g].depth by {
            assert(out[g].packages[m].depth == out[g].depth);
        }
        assert forall|i: int, j: int| 0 <= i < j < top_depths@.len() implies top_depths@[i]
            >= top_depths@[j] by {
            assert(all[at_ints[i]].depth > all[at_ints[j]].depth || (all[at_ints[i]].depth
                == all[at_ints[j]].depth && at_ints[i] < at_ints[j]));
        }
        assert forall|a: int, b: int| 0 <= a < b < groups.len() implies (#[trigger] groups[a]).depth
            > (#[trigger] groups[b]).depth by {
            runs_descend(top_depths@, a, b);
            assert(out[a].depth == lengths[a].0);
            assert(out[b].depth == lengths[b].0);
            assert(run_views(lengths@)[a].0 == lengths[a].0);
            assert(run_views(lengths@)[b].0 == lengths[b].0);
        }
    }
    out
}

/// The members of the first `g` groups are the first members of all groups.
proof fn members_of_prefix(groups: Seq<DepthGroupView>, g: int)
    requires
        0 <= g <= groups.len(),
    ensures
        members(groups.take(g)).len() <= members(groups).len(),
        members(groups.take(g)) == members(groups).take(members(groups.take(g)).len() as int),
    decreases groups.len(),
{
    if g == groups.len() {
        assert(groups.take(g) =~= groups);
        assert(members(groups).take(members(groups).len() as int) =~= members(groups));
    } else {
        members_of_prefix(groups.drop_last(), g);
        assert(groups.drop_last().take(g) =~= groups.take(g));
        let n = members(groups.take(g)).len() as int;
        assert(members(groups).take(n) =~= members(groups.drop_last()).take(n));
    }
}

/// Member `m` of group `g` is a member of the schedule: it comes after the
/// members of the groups before `g` and the `m` members before it.
proof fn member_of_group(groups: Seq<DepthGroupView>, g: int, m: int)
    requires
        0 <= g < groups.len(),
        0 <= m < groups[g].packages.len(),
    ensures
        members(groups.take(g)).len() + m < members(groups).len(),
        members(groups)[members(groups.take(g)).len() + m] == groups[g].packages[m],
{
    members_of_prefix(groups, g + 1);
    let upto = groups.take(g + 1);
    assert(upto.drop_last() =~= groups.take(g));
    assert(upto.last() == groups[g]);
    assert(members(upto) == members(groups.take(g)) + groups[g].packages);
    let at = members(groups.take(g)).len() + m;
    assert(members(upto)[at] == groups[g].packages[m]);
    assert(members(groups).take(members(upto).len() as int)[at] == members(groups)[at]);
}

/// Every member of the schedule is a member of some group.
proof fn group_of_member(groups: Seq<DepthGroupView>, k: int) -> (found: (int, int))
    requires
        0 <= k < members(groups).len(),
    ensures
        0 <= found.0 < groups.len(),
        0 <= found.1 < groups[found.0].packages.len(),
        members(groups.take(found.0)).len() + found.1 == k,
        groups[found.0].packages[found.1] == members(groups)[k],
    decreases groups.len(),
{
    let before = groups.drop_last();
    if k < members(before).len() {
        let (g, m) = group_of_member(before, k);
        assert(before.take(g) =~= groups.take(g));
        (g, m)
    } else {
        let g = groups.len() - 1;
        assert(groups.take(g) =~= before);
        (g, k - members(before).len())
    }
}

/// Among the first `n` entries, those of one package base, if there are any,
/// include one that no other of them beats: none lies deeper, and none that
/// lies as deep comes before it.
proof fn best_of_prefix(packages: Seq<PackageView>, base: Seq<char>, n: int) -> (best: int)
    requires
        0 <= n <= packages.len(),
        exists|j: int| 0 <= j < n && (#[trigger] packages[j]).pkgbase == base,
    ensures
        0 <= best < n,
        packages[best].pkgbase == base,
        forall|j: int|
            0 <= j < n && (#[trigger] packages[j]).pkgbase == base ==> packages[j].depth
                < packages[best].depth || (packages[j].depth == packages[best].depth && best <= j),
    decreases n,
{
    let last = n - 1;
    if exists|j: int| 0 <= j < last && (#[trigger] packages[j]).pkgbase == base {
        let earlier = best_of_prefix(packages, base, last);
        if packages[last].pkgbase == base && packages[last].depth > packages[earlier].depth {
            last
        } else {
            earlier
        }
    } else {
        last
    }
}

/// Every package base has an entry that stands for it.
pub proof fn every_base_has_a_representative(packages: Seq<PackageView>, j: int) -> (at: int)
    requires
        0 <= j < packages.len(),
    ensures
        stands_for_its_base(packages, at),
        packages[at].pkgbase == packages[j].pkgbase,
{
    best_of_prefix(packages, packages[j].pkgbase, packages.len() as int)
}

/// Every package of the schedule is one of the entries, and stands for its
/// package base.
pub proof fn scheduled_packages_are_entries(
    packages: Seq<PackageView>,
    groups: Seq<DepthGroupView>,
    g: int,
    m: int,
) -> (at: int)
    requires
        is_schedule(packages, groups),
        0 <= g < groups.len(),
        0 <= m < groups[g].packages.len(),
    ensures
        stands_for_its_base(packages, at),
        packages[at] == groups[g].packages[m],
{
    let order = choose|at: Seq<int>| #[trigger]
        is_build_order(packages, at) && members(groups) == picked(packages, at);
    member_of_group(groups, g, m);
    let k = members(groups.take(g)).len() + m;
    assert(stands_for_its_base(packages, order[k]));
    assert(packages[order[k]] == groups[g].packages[m]);
    order[k]
}

/// A package base that is reachable at several depths is scheduled at the
/// greatest of them: the group it is in lies at least as deep as every one of
/// its entries, and exactly as deep as the entry that stands for it.
pub proof fn scheduled_at_greatest_depth(
    packages: Seq<PackageView>,
    groups: Seq<DepthGroupView>,
    g: int,
    m: int,
    j: int,
)
    requires
        is_schedule(packages, groups),
        0 <= g < groups.len(),
        0 <= m < groups[g].packages.len(),
        0 <= j < packages.len(),
        packages[j].pkgbase == groups[g].packages[m].pkgbase,
    ensures
        packages[j].depth <= groups[g].depth,
        packages.contains(groups[g].packages[m]),
        groups[g].packages[m].depth == groups[g].depth,
{
    let at = scheduled_packages_are_entries(packages, groups, g, m);
}

/// Every package base is scheduled.
pub proof fn every_base_is_scheduled(
    packages: Seq<PackageView>,
    groups: Seq<DepthGroupView>,
    j: int,
) -> (found: (int, int))
    requires
        is_schedule(packages, groups),
        0 <= j < packages.len(),
    ensures
        0 <= found.0 < groups.len(),
        0 <= found.1 < groups[found.0].packages.len(),
        groups[found.0].packages[found.1].pkgbase == packages[j].pkgbase,
{
    let at = choose|at: Seq<int>| #[trigger]
        is_build_order(packages, at) && members(groups) == picked(packages, at);
    let r = every_base_has_a_representative(packages, j);
    assert(at.contains(r));
    let k = choose|k: int| 0 <= k < at.len() && at[k] == r;
    assert(members(groups)[k] == packages[r]);
    group_of_member(groups, k)
}

/// No package base is scheduled twice.
pub proof fn no_base_is_scheduled_twice(
    packages: Seq<PackageView>,
    groups: Seq<DepthGroupView>,
    g1: int,
    m1: int,
    g2: int,
    m2: int,
)
    requires
        is_schedule(packages, groups),
        0 <= g1 < groups.len(),
        0 <= m1 < groups[g1].packages.len(),
        0 <= g2 < groups.len(),
        0 <= m2 < groups[g2].packages.len(),
        groups[g1].packages[m1].pkgbase == groups[g2].packages[m2].pkgbase,
    ensures
        g1 == g2,
        m1 == m2,
{
    let at = choose|at: Seq<int>| #[trigger]
        is_build_order(packages, at) && members(groups) == picked(packages, at);
    member_of_group(groups, g1, m1);
    member_of_group(groups, g2, m2);
    let k1 = members(groups.take(g1)).len() + m1;
    let k2 = members(groups.take(g2)).len() + m2;
    assert(stands_for_its_base(packages, at[k1]));
    assert(stands_for_its_base(packages, at[k2]));
    assert(packages[at[k1]].pkgbase == packages[at[k2]].pkgbase);
    assert(at[k1] == at[k2]);
    if k1 < k2 {
        assert(at[k1] < at[k2] || packages[at[k1]].depth > packages[at[k2]].depth);
    }
    if k2 < k1 {
        assert(at[k2] < at[k1] || packages[at[k2]].depth > packages[at[k1]].depth);
    }
    assert(k1 == k2);
    if g1 < g2 {
        members_of_prefix(groups.take(g2), g1 + 1);
        assert(groups.take(g2).take(g1 + 1) =~= groups.take(g1 + 1));
        assert(groups.take(g1 + 1).drop_last() =~= groups.take(g1));
        assert(groups.take(g1 + 1).last() == groups[g1]);
    }
    if g2 < g1 {
        members_of_prefix(groups.take(g1), g2 + 1);
        assert(groups.take(g1).take(g2 + 1) =~= groups.take(g2 + 1));
        assert(groups.take(g2 + 1).drop_last() =~= groups.take(g2));
        assert(groups.take(g2 + 1).last() == groups[g2]);
    }
}

/// A package base is built only after every package base that is scheduled
/// at a greater depth: the deeper one is in an earlier group.
pub proof fn deeper_bases_are_built_first(
    packages: Seq<PackageView>,
    groups: Seq<DepthGroupView>,
    g1: int,
    m1: int,
    g2: int,
    m2: int,
)
    requires
        is_schedule(packages, groups),
        0 <= g1 < groups.len(),
        0 <= m1 < groups[g1].packages.len(),
        0 <= g2 < groups.len(),
        0 <= m2 < groups[g2].packages.len(),
        groups[g1].packages[m1].depth > groups[g2].packages[m2].depth,
    ensures
        g1 < g2,
{
    assert(groups[g1].packages[m1].depth == groups[g1].depth);
    assert(groups[g2].packages[m2].depth == groups[g2].depth);
    if g2 < g1 {
        assert(groups[g2].depth > groups[g1].depth);
    }
}

/// In groups cut by depth, every member lies at least as deep as the last
/// group.
proof fn members_lie_above_last_group(groups: Seq<DepthGroupView>, k: int)
    requires
        is_cut_by_depth(groups),
        groups.len() > 0,
        0 <= k < members(groups).len(),
    ensures
        members(groups)[k].depth >= groups.last().depth,
        k < members(groups.drop_last()).len() ==> members(groups)[k].depth > groups.last().depth,
{
    let (g, m) = group_of_member(groups, k);
    assert(groups[g].packages[m].depth == groups[g].depth);
    if g < groups.len() - 1 {
        assert(groups[g].depth > groups[groups.len() - 1].depth);
    } else {
        assert(groups.take(g) =~= groups.drop_last());
    }
}

/// Groups cut by depth stay so when the last group is left out.
proof fn cut_without_last_group(groups: Seq<DepthGroupView>)
    requires
        is_cut_by_depth(groups),
        groups.len() > 0,
    ensures
        is_cut_by_depth(groups.drop_last()),
{
    let before = groups.drop_last();
    assert forall|g: int| 0 <= g < before.len() implies (#[trigger] before[g]).packages.len()
        > 0 by {
        assert(groups[g].packages.len() > 0);
    }
    assert forall|g: int, m: int|
        0 <= g < before.len() && 0 <= m < before[g].packages.len() implies (#[trigger] before[g].packages[m]).depth
        == before[g].depth by {
        assert(groups[g].packages[m].depth == groups[g].depth);
    }
    assert forall|p: int, q: int| 0 <= p < q < before.len() implies (#[trigger] before[p]).depth
        > (#[trigger] before[q]).depth by {
        assert(groups[p].depth > groups[q].depth);
    }
}

/// The last group of groups cut by depth holds at least as many members as
/// the last group of any other cut of the same members.
proof fn last_group_is_longest(a: Seq<DepthGroupView>, b: Seq<DepthGroupView>)
    requires
        is_cut_by_depth(a),
        is_cut_by_depth(b),
        members(a) == members(b),
        a.len() > 0,
        b.len() > 0,
    ensures
        a.last().depth == b.last().depth,
        a.last().packages.len() >= b.last().packages.len(),
{
    let all = members(a);
    let x = a.last();
    let y = b.last();
    assert(all == members(a.drop_last()) + x.packages);
    assert(all == members(b.drop_last()) + y.packages);
    assert(x.packages.len() > 0);
    assert(y.packages.len() > 0);
    let last = all.len() - 1;
    assert(all[last] == x.packages[x.packages.len() - 1]);
    assert(all[last] == y.packages[y.packages.len() - 1]);
    assert(x.packages[x.packages.len() - 1].depth == x.depth);
    assert(y.packages[y.packages.len() - 1].depth == y.depth);
    if x.packages.len() < y.packages.len() {
        let k = members(b.drop_last()).len() as int;
        assert(all[k] == y.packages[0]);
        assert(y.packages[0].depth == y.depth);
        members_lie_above_last_group(a, k);
    }
}

/// The same members are cut by depth in one way only.
proof fn same_members_same_groups(a: Seq<DepthGroupView>, b: Seq<DepthGroupView>)
    requires
        is_cut_by_depth(a),
        is_cut_by_depth(b),
        members(a) == members(b),
    ensures
        a == b,
    decreases a.len(),
{
    if a.len() == 0 {
        if b.len() > 0 {
            member_of_group(b, 0, 0);
        }
        assert(a =~= b);
    } else if b.len() == 0 {
        member_of_group(a, 0, 0);
    } else {
        let all = members(a);
        let x = a.last();
        let y = b.last();
        let xs = a.drop_last();
        let ys = b.drop_last();
        last_group_is_longest(a, b);
        last_group_is_longest(b, a);
        assert(all == members(xs) + x.packages);
        assert(all == members(ys) + y.packages);
        assert(members(xs).len() == members(ys).len());
        assert(members(xs) =~= all.take(members(xs).len() as int));
        assert(members(ys) =~= all.take(members(ys).len() as int));
        assert(x.packages =~= all.skip(members(xs).len() as int));
        assert(y.packages =~= all.skip(members(ys).len() as int));
        assert(x == y);
        cut_without_last_group(a);
        cut_without_last_group(b);
        same_members_same_groups(xs, ys);
        assert(a =~= xs.push(x));
        assert(b =~= ys.push(y));
    }
}

/// There is one schedule only: the package bases, the depth of each, the
/// split package that stands for each, the groups and the order within them
/// are all determined by the packages.
pub proof fn schedule_is_unique(
    packages: Seq<PackageView>,
    a: Seq<DepthGroupView>,
    b: Seq<DepthGroupView>,
)
    requires
        is_schedule(packages, a),
        is_schedule(packages, b),
    ensures
        a == b,
{
    let x = choose|at: Seq<int>| #[trigger]
        is_build_order(packages, at) && members(a) == picked(packages, at);
    let y = choose|at: Seq<int>| #[trigger]
        is_build_order(packages, at) && members(b) == picked(packages, at);
    assert forall|p: int| x.contains(p) <==> y.contains(p) by {
        if x.contains(p) {
            let k = choose|k: int| 0 <= k < x.len() && x[k] == p;
            assert(stands_for_its_base(packages, x[k]));
        }
        if y.contains(p) {
            let k = choose|k: int| 0 <= k < y.len() && y[k] == p;
            assert(stands_for_its_base(packages, y[k]));
        }
    }
    let before = |p: int, q: int| built_before(packages, p, q);
    assert forall|k: int, l: int| 0 <= k < l < x.len() implies before(
        #[trigger] x[k],
        #[trigger] x[l],
    ) by {
        assert(built_before(packages, x[k], x[l]));
    }
    assert forall|k: int, l: int| 0 <= k < l < y.len() implies before(
        #[trigger] y[k],
        #[trigger] y[l],
    ) by {
        assert(built_before(packages, y[k], y[l]));
    }
    same_members_same_order(x, y, before);
    same_members_same_groups(a, b);
}

} // verus!

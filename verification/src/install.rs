//! Installing a set of targets: what has to be known before anything is
//! touched, what is shown to the user, and in which order package bases are
//! reviewed, built and installed.

use crate::collections::depth_entries;
use crate::collections::depth_keys;
use crate::collections::depth_map_entries;
use crate::collections::depth_pairs;
use crate::collections::name_entries;
use crate::collections::name_keys;
use crate::collections::name_map_entries;
use crate::collections::name_pairs;
use crate::collections::name_set;
use crate::collections::name_set_entries;
use crate::collections::set_entries;
use crate::names::is_key;
use crate::names::owned;
use crate::names::same_text;
use crate::names::views;
use crate::positions::first_of_each;
use crate::positions::first_positions;
use crate::positions::first_positions_are_exact;
use crate::positions::first_positions_cover;
use crate::positions::is_stable_descending_order;
use crate::positions::stable_descending_order;
use crate::positions::stable_descending_order_is_unique;
use crate::schedule::group_views;
use crate::schedule::is_schedule;
use crate::schedule::package_views;
use crate::schedule::schedule;
use crate::schedule::scheduled_packages_are_entries;
use crate::schedule::DepthGroup;
use crate::schedule::DepthGroupView;
use crate::schedule::Package;
use crate::schedule::PackageView;
use crate::steps::installation_steps;
use crate::steps::plan_installation;
use crate::steps::InstallStep;
use indexmap::IndexMap;
use indexmap::IndexSet;
use vstd::prelude::*;

verus! {

/// Why nothing can be installed.
#[derive(Clone, Debug, PartialEq, Eq)]
pub enum InstallError {
    /// Packages that are needed but for which no metadata was found: all of
    /// them, in the order in which they are needed.
    Unresolved { names: Vec<String> },
    /// A split package with metadata whose depth is not known.
    MissingDepth { split: String },
}

/// The depth recorded for `split`, if any.
pub open spec fn depth_of(depths: Seq<(Seq<char>, i32)>, split: Seq<char>) -> Option<i32>
    decreases depths.len(),
{
    if depths.len() == 0 {
        None
    } else if depths[0].0 == split {
        Some(depths[0].1)
    } else {
        depth_of(depths.drop_first(), split)
    }
}

/// The names of `needed` that are not among `known`, in order.
pub open spec fn unresolved(needed: Seq<Seq<char>>, known: Seq<Seq<char>>) -> Seq<Seq<char>> {
    needed.filter(|name: Seq<char>| !known.contains(name))
}

/// Every split package with metadata has a depth.
pub open spec fn all_have_depth(
    bases: Seq<(Seq<char>, Seq<char>)>,
    depths: Seq<(Seq<char>, i32)>,
) -> bool {
    forall|i: int| 0 <= i < bases.len() ==> depth_of(depths, (#[trigger] bases[i]).0) is Some
}

/// `split` is the first split package with metadata that has no depth.
pub open spec fn is_first_without_depth(
    bases: Seq<(Seq<char>, Seq<char>)>,
    depths: Seq<(Seq<char>, i32)>,
    split: Seq<char>,
) -> bool {
    exists|i: int|
        0 <= i < bases.len() && (#[trigger] bases[i]).0 == split && depth_of(depths, split) is None
            && all_have_depth(bases.take(i), depths)
}

/// The split packages with their package base and depth, in the order of
/// the metadata.
pub open spec fn resolved(
    bases: Seq<(Seq<char>, Seq<char>)>,
    depths: Seq<(Seq<char>, i32)>,
) -> Seq<PackageView> {
    Seq::new(
        bases.len(),
        |i: int|
            PackageView {
                pkgbase: bases[i].1,
                depth: depth_of(depths, bases[i].0).unwrap() as int,
                split: bases[i].0,
            },
    )
}

/// The depth recorded for `split`, if any.
fn find_depth(depths: &Vec<(String, i32)>, split: &str) -> (out: Option<i32>)
    ensures
        out == depth_of(depth_pairs(depths@), split@),
{
    let ghost all = depth_pairs(depths@);
    let mut i: usize = 0;
    assert(all.skip(0) =~= all);
    while i < depths.len()
        invariant
            i <= depths.len(),
            all == depth_pairs(depths@),
            depth_of(all, split@) == depth_of(all.skip(i as int), split@),
        decreases depths.len() - i,
    {
        assert(all.skip(i as int)[0] == all[i as int]);
        assert(all.skip(i as int).drop_first() =~= all.skip(i + 1));
        if same_text(depths[i].0.as_str(), split) {
            return Some(depths[i].1);
        }
        i += 1;
    }
    assert(all.skip(depths.len() as int).len() == 0);
    None
}

/// Whether `name` is a key of `bases`.
fn has_metadata(bases: &Vec<(String, String)>, name: &str) -> (out: bool)
    ensures
        out == name_keys(name_pairs(bases@)).contains(name@),
{
    let ghost keys = name_keys(name_pairs(bases@));
    let mut i: usize = 0;
    while i < bases.len()
        invariant
            i <= bases.len(),
            keys == name_keys(name_pairs(bases@)),
            forall|j: int| 0 <= j < i ==> keys[j] != name@,
        decreases bases.len() - i,
    {
        if same_text(bases[i].0.as_str(), name) {
            assert(keys[i as int] == name@);
            return true;
        }
        i += 1;
    }
    false
}

/// The split packages that are needed but have no metadata.
fn unresolved_names(depths: &Vec<(String, i32)>, bases: &Vec<(String, String)>) -> (out: Vec<String>)
    ensures
        views(out@) == unresolved(depth_keys(depth_pairs(depths@)), name_keys(name_pairs(bases@))),
{
    let ghost needed = depth_keys(depth_pairs(depths@));
    let ghost known = name_keys(name_pairs(bases@));
    let ghost pred = |name: Seq<char>| !known.contains(name);
    let mut out: Vec<String> = Vec::new();
    let mut i: usize = 0;
    assert(needed.take(0) =~= Seq::<Seq<char>>::empty());
    assert(views(out@) =~= Seq::<Seq<char>>::empty());
    while i < depths.len()
        invariant
            i <= depths.len(),
            needed == depth_keys(depth_pairs(depths@)),
            known == name_keys(name_pairs(bases@)),
            pred == |name: Seq<char>| !known.contains(name),
            views(out@) == needed.take(i as int).filter(pred),
        decreases depths.len() - i,
    {
        let ghost before = views(out@);
        proof {
            needed.take(i as int).lemma_filter_push(needed[i as int], pred);
            assert(needed.take(i + 1) =~= needed.take(i as int).push(needed[i as int]));
        }
        if !has_metadata(bases, depths[i].0.as_str()) {
            out.push(owned(depths[i].0.as_str()));
            assert(views(out@) =~= before.push(needed[i as int]));
        }
        i += 1;
    }
    assert(needed.take(depths.len() as int) =~= needed);
    out
}

/// Each split package with its package base and its depth, or the first one
/// whose depth is not known.
fn resolve_packages(bases: &Vec<(String, String)>, depths: &Vec<(String, i32)>) -> (out: Result<
    Vec<Package>,
    InstallError,
>)
    ensures
        match out {
            Ok(packages) => all_have_depth(name_pairs(bases@), depth_pairs(depths@))
                && package_views(packages@) == resolved(name_pairs(bases@), depth_pairs(depths@)),
            Err(InstallError::MissingDepth { split }) => is_first_without_depth(
                name_pairs(bases@),
                depth_pairs(depths@),
                split@,
            ),
            Err(_) => false,
        },
{
    let ghost b = name_pairs(bases@);
    let ghost d = depth_pairs(depths@);
    let mut out: Vec<Package> = Vec::new();
    let mut i: usize = 0;
    while i < bases.len()
        invariant
            i <= bases.len(),
            b == name_pairs(bases@),
            d == depth_pairs(depths@),
            out.len() == i,
            all_have_depth(b.take(i as int), d),
            forall|j: int| 0 <= j < i ==> (#[trigger] package_views(out@)[j]) == resolved(b, d)[j],
        decreases bases.len() - i,
    {
        let split = bases[i].0.as_str();
        match find_depth(depths, split) {
            None => {
                assert(b[i as int].0 == split@);
                return Err(InstallError::MissingDepth { split: owned(split) });
            },
            Some(depth) => {
                let ghost before = package_views(out@);
                let package = Package {
                    pkgbase: owned(bases[i].1.as_str()),
                    depth,
                    split: owned(split),
                };
                assert(b[i as int] == (bases[i as int].0@, bases[i as int].1@));
                assert(package@ == resolved(b, d)[i as int]);
                out.push(package);
                assert(package_views(out@) =~= before.push(resolved(b, d)[i as int]));
                assert forall|j: int| 0 <= j < i + 1 implies depth_of(
                    d,
                    (#[trigger] b.take(i + 1)[j]).0,
                ) is Some by {
                    if j < i {
                        assert(b.take(i as int)[j] == b.take(i + 1)[j]);
                    }
                }
            },
        }
        i += 1;
    }
    assert(b.take(bases.len() as int) =~= b);
    assert(package_views(out@) =~= resolved(b, d));
    Ok(out)
}

/// The schedule for the split packages of `split_to_pkgbase` at the depths of
/// `split_to_depth`: the package bases to build, each once, grouped by depth,
/// deepest group first.
///
/// Fails with the first split package whose depth is not known, if there is
/// one.
pub fn install_all(
    split_to_depth: &IndexMap<String, i32>,
    split_to_pkgbase: &IndexMap<String, String>,
) -> (out: Result<Vec<DepthGroup>, InstallError>)
    ensures
        name_map_entries(*split_to_pkgbase).len() <= usize::MAX,
        match out {
            Ok(groups) => all_have_depth(
                name_map_entries(*split_to_pkgbase),
                depth_map_entries(*split_to_depth),
            ) && is_schedule(
                resolved(name_map_entries(*split_to_pkgbase), depth_map_entries(*split_to_depth)),
                group_views(groups@),
            ),
            Err(InstallError::MissingDepth { split }) => is_first_without_depth(
                name_map_entries(*split_to_pkgbase),
                depth_map_entries(*split_to_depth),
                split@,
            ),
            Err(_) => false,
        },
{
    let depths = depth_entries(split_to_depth);
    let bases = name_entries(split_to_pkgbase);
    assert(name_pairs(bases@).len() == bases.len());
    match resolve_packages(&bases, &depths) {
        Ok(packages) => Ok(schedule(&packages)),
        Err(e) => Err(e),
    }
}

/// Whether the archives of a group are installed as dependencies: always
/// when asked for, and else for every group but the one at depth 0.
pub fn mark_as_dependency(asdeps: bool, depth: i32) -> (out: bool)
    ensures
        out == (asdeps || depth > 0),
{
    asdeps || depth > 0
}

/// Whether a line typed at the summary confirms it: only `o` does.
pub fn confirms(line: &str) -> (out: bool)
    ensures
        out == (line@ == seq!['o']),
{
    is_key(line, 'o')
}

/// What is shown to the user before anything is touched: the system
/// packages to install, and the packages to build, deepest first.
#[derive(Clone, Debug, PartialEq, Eq)]
pub struct InstallSummary {
    pub pacman: Vec<String>,
    pub aur: Vec<String>,
}

/// The depths of a list of name and depth pairs.
pub open spec fn depth_values(entries: Seq<(Seq<char>, i32)>) -> Seq<i32> {
    entries.map_values(|e: (Seq<char>, i32)| e.1)
}

/// `shown` holds the names of `entries` by depth descending, names of equal
/// depth in the order of `entries`.
pub open spec fn is_summary_order(entries: Seq<(Seq<char>, i32)>, shown: Seq<Seq<char>>) -> bool {
    exists|order: Seq<usize>| #[trigger]
        is_stable_descending_order(depth_values(entries), order) && shown == order.map_values(
            |p: usize| entries[p as int].0,
        )
}

/// `summary` is what is shown for these system packages and these packages
/// to build: both lists, the packages to build by depth descending. There is
/// a summary whatever the lists hold, be it a single package.
pub open spec fn is_summary(
    pacman: Seq<Seq<char>>,
    aur: Seq<(Seq<char>, i32)>,
    summary: InstallSummary,
) -> bool {
    views(summary.pacman@) == pacman && is_summary_order(aur, views(summary.aur@))
}

/// A copy of each name.
fn copy_names(names: &Vec<String>) -> (out: Vec<String>)
    ensures
        views(out@) == views(names@),
{
    let mut out: Vec<String> = Vec::new();
    let mut i: usize = 0;
    while i < names.len()
        invariant
            i <= names.len(),
            out.len() == i,
            forall|j: int| 0 <= j < i ==> (#[trigger] out[j])@ == names[j]@,
        decreases names.len() - i,
    {
        out.push(owned(names[i].as_str()));
        i += 1;
    }
    assert(views(out@) =~= views(names@));
    out
}

/// The summary for the system packages `pacman` and the packages to build
/// `aur`, each with its depth.
pub fn install_summary(pacman: &Vec<String>, aur: &Vec<(String, i32)>) -> (out: InstallSummary)
    ensures
        is_summary(views(pacman@), depth_pairs(aur@), out),
{
    let ghost entries = depth_pairs(aur@);
    let mut depths: Vec<i32> = Vec::new();
    let mut i: usize = 0;
    while i < aur.len()
        invariant
            i <= aur.len(),
            depths.len() == i,
            forall|j: int| 0 <= j < i ==> #[trigger] depths[j] == aur[j].1,
        decreases aur.len() - i,
    {
        depths.push(aur[i].1);
        i += 1;
    }
    assert(depths@ =~= depth_values(entries));
    let order = stable_descending_order(&depths);
    let mut shown: Vec<String> = Vec::new();
    let mut k: usize = 0;
    while k < order.len()
        invariant
            k <= order.len(),
            shown.len() == k,
            forall|j: int| 0 <= j < order.len() ==> (#[trigger] order[j]) < aur.len(),
            forall|j: int| 0 <= j < k ==> (#[trigger] shown[j])@ == aur[order[j] as int].0@,
        decreases order.len() - k,
    {
        shown.push(owned(aur[order[k]].0.as_str()));
        k += 1;
    }
    assert(views(shown@) =~= order@.map_values(|p: usize| entries[p as int].0));
    InstallSummary { pacman: copy_names(pacman), aur: shown }
}

/// What is shown to the user, and has to be confirmed, before anything is
/// touched, for the system packages `pacman_deps` and the packages to build
/// `aur_packages`.
pub fn show_install_summary(
    pacman_deps: &IndexSet<String>,
    aur_packages: &IndexMap<String, i32>,
) -> (out: InstallSummary)
    ensures
        is_summary(name_set_entries(*pacman_deps), depth_map_entries(*aur_packages), out),
{
    let pacman = set_entries(pacman_deps);
    let aur = depth_entries(aur_packages);
    install_summary(&pacman, &aur)
}

/// The package bases of a list of split package and package base pairs.
pub open spec fn base_names(bases: Seq<(Seq<char>, Seq<char>)>) -> Seq<Seq<char>> {
    bases.map_values(|e: (Seq<char>, Seq<char>)| e.1)
}

/// Each name once, in the order in which the names first occur.
pub open spec fn each_once(names: Seq<Seq<char>>) -> Seq<Seq<char>> {
    first_positions(names).map_values(|p: usize| names[p as int])
}

/// The package bases to review, each once, in the order in which the
/// metadata first names them.
pub fn review_order(bases: &Vec<(String, String)>) -> (out: Vec<String>)
    ensures
        views(out@) == each_once(base_names(name_pairs(bases@))),
{
    let ghost names = base_names(name_pairs(bases@));
    let mut all: Vec<String> = Vec::new();
    let mut i: usize = 0;
    while i < bases.len()
        invariant
            i <= bases.len(),
            all.len() == i,
            forall|j: int| 0 <= j < i ==> (#[trigger] all[j])@ == bases[j].1@,
        decreases bases.len() - i,
    {
        all.push(owned(bases[i].1.as_str()));
        i += 1;
    }
    assert(views(all@) =~= names);
    let firsts = first_of_each(&all);
    proof {
        first_positions_are_exact(names);
    }
    let mut out: Vec<String> = Vec::new();
    let mut k: usize = 0;
    while k < firsts.len()
        invariant
            k <= firsts.len(),
            out.len() == k,
            names == views(all@),
            forall|j: int| 0 <= j < firsts.len() ==> (#[trigger] firsts[j]) < all.len(),
            forall|j: int| 0 <= j < k ==> (#[trigger] out[j])@ == all[firsts[j] as int]@,
        decreases firsts.len() - k,
    {
        out.push(owned(all[firsts[k]].as_str()));
        k += 1;
    }
    assert(views(out@) =~= each_once(names));
    out
}

/// The staged archives of the packages of a group: for each package its
/// split name and the files in its staging directory.
pub open spec fn staged_views(staged: Seq<(String, Vec<String>)>) -> Seq<
    (Seq<char>, Seq<Seq<char>>),
> {
    staged.map_values(|s: (String, Vec<String>)| (s.0@, views(s.1@)))
}

/// Every staged file paired with the split name of its package, package by
/// package.
pub open spec fn batch(staged: Seq<(Seq<char>, Seq<Seq<char>>)>) -> Seq<(Seq<char>, Seq<char>)>
    decreases staged.len(),
{
    if staged.len() == 0 {
        Seq::empty()
    } else {
        batch(staged.drop_last()) + staged.last().1.map_values(
            |file: Seq<char>| (staged.last().0, file),
        )
    }
}

/// The archives of one group to hand to the package manager in one batch:
/// every staged file, paired with the split name that stands for its package
/// base in the schedule.
pub fn files_to_install(staged: &Vec<(String, Vec<String>)>) -> (out: Vec<(String, String)>)
    ensures
        name_pairs(out@) == batch(staged_views(staged@)),
{
    let ghost all = staged_views(staged@);
    let mut out: Vec<(String, String)> = Vec::new();
    let mut i: usize = 0;
    assert(all.take(0) =~= Seq::<(Seq<char>, Seq<Seq<char>>)>::empty());
    assert(name_pairs(out@) =~= batch(all.take(0)));
    while i < staged.len()
        invariant
            i <= staged.len(),
            all == staged_views(staged@),
            name_pairs(out@) == batch(all.take(i as int)),
        decreases staged.len() - i,
    {
        let ghost before = name_pairs(out@);
        let ghost files = all[i as int].1;
        let ghost split = all[i as int].0;
        let mut k: usize = 0;
        assert(files.take(0) =~= Seq::<Seq<char>>::empty());
        assert(name_pairs(out@) =~= before + files.take(0).map_values(
            |file: Seq<char>| (split, file),
        ));
        while k < staged[i].1.len()
            invariant
                i < staged.len(),
                k <= staged[i as int].1.len(),
                all == staged_views(staged@),
                files == all[i as int].1,
                split == all[i as int].0,
                name_pairs(out@) == before + files.take(k as int).map_values(
                    |file: Seq<char>| (split, file),
                ),
            decreases staged[i as int].1.len() - k,
        {
            let ghost so_far = name_pairs(out@);
            out.push((owned(staged[i].0.as_str()), owned(staged[i].1[k].as_str())));
            assert(name_pairs(out@) =~= so_far.push((split, files[k as int])));
            assert(files.take(k + 1).map_values(|file: Seq<char>| (split, file)) =~= files.take(
                k as int,
            ).map_values(|file: Seq<char>| (split, file)).push((split, files[k as int])));
            k += 1;
        }
        proof {
            assert(files.take(files.len() as int) =~= files);
            assert(all.take(i + 1).drop_last() =~= all.take(i as int));
            assert(all.take(i + 1).last() == all[i as int]);
        }
        i += 1;
    }
    assert(all.take(staged.len() as int) =~= all);
    out
}

/// What an installation consists of, once all that is needed is known.
#[derive(Debug)]
pub struct InstallPlan {
    /// What to show, and have confirmed, before anything is touched.
    pub summary: InstallSummary,
    /// The package bases, each once: the recipe of each is reviewed before
    /// anything is built, and its build directory is removed at the end.
    pub review_order: Vec<String>,
    /// The split-package names that built archives may bear.
    pub archive_whitelist: IndexSet<String>,
    /// The package bases to build, grouped by depth, deepest group first.
    pub groups: Vec<DepthGroup>,
    /// What to do, step by step.
    pub steps: Vec<InstallStep>,
}

/// Plans the installation of the split packages in `split_to_depth`, whose
/// metadata names the package base of each in `split_to_pkgbase`, together
/// with the system packages `pacman_deps`. With `is_offline` the builds run
/// without network; with `asdeps` every archive is installed as a
/// dependency.
///
/// Fails with all the needed names for which there is no metadata, if there
/// are any; else with the first split package whose depth is not known, if
/// there is one.
pub fn install(
    split_to_pkgbase: &IndexMap<String, String>,
    pacman_deps: &IndexSet<String>,
    split_to_depth: &IndexMap<String, i32>,
    is_offline: bool,
    asdeps: bool,
) -> (out: Result<InstallPlan, InstallError>)
    ensures
        name_map_entries(*split_to_pkgbase).len() <= usize::MAX,
        ({
            let bases = name_map_entries(*split_to_pkgbase);
            let depths = depth_map_entries(*split_to_depth);
            let missing = unresolved(depth_keys(depths), name_keys(bases));
            match out {
                Err(InstallError::Unresolved { names }) => missing.len() > 0 && views(names@)
                    == missing,
                Err(InstallError::MissingDepth { split }) => missing.len() == 0
                    && is_first_without_depth(bases, depths, split@),
                Ok(plan) => {
                    &&& missing.len() == 0
                    &&& all_have_depth(bases, depths)
                    &&& is_summary(name_set_entries(*pacman_deps), depths, plan.summary)
                    &&& views(plan.review_order@) == each_once(base_names(bases))
                    &&& name_set_entries(plan.archive_whitelist) == depth_keys(depths)
                    &&& is_schedule(resolved(bases, depths), group_views(plan.groups@))
                    &&& plan.steps@ == installation_steps(
                        plan.review_order@.len(),
                        group_views(plan.groups@),
                        is_offline,
                        asdeps,
                    )
                },
            }
        }),
{
    let depths = depth_entries(split_to_depth);
    let bases = name_entries(split_to_pkgbase);
    assert(name_pairs(bases@).len() == bases.len());
    let not_found = unresolved_names(&depths, &bases);
    if not_found.len() > 0 {
        return Err(InstallError::Unresolved { names: not_found });
    }
    let packages = match resolve_packages(&bases, &depths) {
        Ok(packages) => packages,
        Err(e) => {
            return Err(e);
        },
    };
    let pacman = set_entries(pacman_deps);
    let summary = install_summary(&pacman, &depths);
    let review_order = review_order(&bases);
    let mut keys: Vec<String> = Vec::new();
    let mut i: usize = 0;
    while i < depths.len()
        invariant
            i <= depths.len(),
            keys.len() == i,
            forall|j: int| 0 <= j < i ==> (#[trigger] keys[j])@ == depths[j].0@,
        decreases depths.len() - i,
    {
        keys.push(owned(depths[i].0.as_str()));
        i += 1;
    }
    assert(views(keys@) =~= depth_keys(depth_pairs(depths@)));
    let archive_whitelist = name_set(keys);
    let groups = schedule(&packages);
    let steps = plan_installation(review_order.len(), &groups, is_offline, asdeps);
    Ok(InstallPlan { summary, review_order, archive_whitelist, groups, steps })
}

/// Every package base is reviewed, and none is reviewed twice: the review
/// order holds each name of the list, holds no other, and holds none twice.
pub proof fn every_base_is_reviewed_once(names: Seq<Seq<char>>)
    requires
        names.len() <= usize::MAX,
    ensures
        each_once(names).no_duplicates(),
        forall|i: int| 0 <= i < names.len() ==> each_once(names).contains(#[trigger] names[i]),
        forall|k: int|
            0 <= k < each_once(names).len() ==> names.contains(#[trigger] each_once(names)[k]),
{
    let firsts = first_positions(names);
    let once = each_once(names);
    first_positions_are_exact(names);
    assert forall|k: int, l: int| 0 <= k < once.len() && 0 <= l < once.len() && k != l implies once[k]
        != once[l] by {
        if k < l {
            assert(firsts[k] < firsts[l]);
            assert(names[firsts[k] as int] != names[firsts[l] as int]);
        } else {
            assert(firsts[l] < firsts[k]);
            assert(names[firsts[l] as int] != names[firsts[k] as int]);
        }
    }
    assert forall|i: int| 0 <= i < names.len() implies once.contains(#[trigger] names[i]) by {
        first_positions_cover(names, i);
        let k = choose|k: int|
            0 <= k < firsts.len() && firsts[k] < names.len() && names[#[trigger] firsts[k] as int]
                == names[i];
        assert(once[k] == names[i]);
    }
    assert forall|k: int| 0 <= k < once.len() implies names.contains(#[trigger] once[k]) by {
        assert(firsts[k] < names.len());
        assert(names[firsts[k] as int] == once[k]);
    }
}

/// The order in which the packages to build are shown is determined by
/// their depths: there is one such order only.
pub proof fn summary_order_is_unique(
    entries: Seq<(Seq<char>, i32)>,
    a: Seq<Seq<char>>,
    b: Seq<Seq<char>>,
)
    requires
        is_summary_order(entries, a),
        is_summary_order(entries, b),
    ensures
        a == b,
{
    let x = choose|order: Seq<usize>| #[trigger]
        is_stable_descending_order(depth_values(entries), order) && a == order.map_values(
            |p: usize| entries[p as int].0,
        );
    let y = choose|order: Seq<usize>| #[trigger]
        is_stable_descending_order(depth_values(entries), order) && b == order.map_values(
            |p: usize| entries[p as int].0,
        );
    stable_descending_order_is_unique(depth_values(entries), x, y);
}

/// No package base is built without a review of its recipe: every package
/// base of the schedule is in the review order.
pub proof fn every_scheduled_base_is_reviewed(
    bases: Seq<(Seq<char>, Seq<char>)>,
    depths: Seq<(Seq<char>, i32)>,
    groups: Seq<DepthGroupView>,
    g: int,
    m: int,
)
    requires
        bases.len() <= usize::MAX,
        is_schedule(resolved(bases, depths), groups),
        0 <= g < groups.len(),
        0 <= m < groups[g].packages.len(),
    ensures
        each_once(base_names(bases)).contains(groups[g].packages[m].pkgbase),
{
    let at = scheduled_packages_are_entries(resolved(bases, depths), groups, g, m);
    assert(base_names(bases)[at] == groups[g].packages[m].pkgbase);
    every_base_is_reviewed_once(base_names(bases));
}

} // verus!

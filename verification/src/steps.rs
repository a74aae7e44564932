//! The course of an installation: what is done, and in which order.

use crate::install::mark_as_dependency;
use crate::schedule::group_views;
use crate::schedule::is_cut_by_depth;
use crate::schedule::DepthGroup;
use crate::schedule::DepthGroupView;
use vstd::prelude::*;

verus! {

/// One step of an installation. `base` counts into the package bases in
/// review order, `group` into the groups of the schedule, `package` into
/// the packages of a group.
#[derive(Clone, Copy, Debug, PartialEq, Eq, Structural)]
pub enum InstallStep {
    /// Show the summary and wait until the user confirms it.
    ConfirmSummary,
    /// Review the recipe of a package base.
    Review { base: usize },
    /// Have the system packages installed.
    InstallSystemPackages,
    /// Build a package base, unless its earlier build is kept.
    Build { group: usize, package: usize, offline: bool },
    /// Verify the archives of a package base and stage them.
    Stage { group: usize, package: usize },
    /// Have the staged archives of a group installed, in one batch.
    InstallGroup { group: usize, asdeps: bool },
    /// Remove the build directory of a package base.
    RemoveBuildDir { base: usize },
}

/// The steps for one group: every package base is built, then the archives
/// of every one are staged, then all are installed together, as dependencies
/// unless the group lies at depth 0 and nothing else was asked for.
pub open spec fn group_steps(group: int, size: nat, depth: int, offline: bool, asdeps: bool) -> Seq<
    InstallStep,
> {
    Seq::new(
        size,
        |m: int| InstallStep::Build { group: group as usize, package: m as usize, offline },
    ) + Seq::new(size, |m: int| InstallStep::Stage { group: group as usize, package: m as usize })
        + seq![InstallStep::InstallGroup { group: group as usize, asdeps: asdeps || depth > 0 }]
}

/// The steps for the groups of a schedule, group after group.
pub open spec fn schedule_steps(groups: Seq<DepthGroupView>, offline: bool, asdeps: bool) -> Seq<
    InstallStep,
>
    decreases groups.len(),
{
    if groups.len() == 0 {
        Seq::empty()
    } else {
        schedule_steps(groups.drop_last(), offline, asdeps) + group_steps(
            groups.len() - 1,
            groups.last().packages.len(),
            groups.last().depth,
            offline,
            asdeps,
        )
    }
}

/// The steps of an installation: first of all the summary is confirmed;
/// every recipe is reviewed; the system packages are installed; the groups
/// of the schedule are built, staged and installed, one after the other; and
/// at the end every build directory is removed.
pub open spec fn installation_steps(
    bases: nat,
    groups: Seq<DepthGroupView>,
    offline: bool,
    asdeps: bool,
) -> Seq<InstallStep> {
    seq![InstallStep::ConfirmSummary] + Seq::new(
        bases,
        |b: int| InstallStep::Review { base: b as usize },
    )
        + seq![InstallStep::InstallSystemPackages] + schedule_steps(groups, offline, asdeps)
        + Seq::new(bases, |b: int| InstallStep::RemoveBuildDir { base: b as usize })
}

/// Adds the steps for group `group`, which holds `size` packages at `depth`.
fn push_group_steps(
    out: &mut Vec<InstallStep>,
    group: usize,
    size: usize,
    depth: i32,
    offline: bool,
    asdeps: bool,
)
    ensures
        final(out)@ == old(out)@ + group_steps(
            group as int,
            size as nat,
            depth as int,
            offline,
            asdeps,
        ),
{
    let ghost before = out@;
    let mut m: usize = 0;
    while m < size
        invariant
            m <= size,
            out@ == before + Seq::new(
                m as nat,
                |i: int| InstallStep::Build { group, package: i as usize, offline },
            ),
        decreases size - m,
    {
        out.push(InstallStep::Build { group, package: m, offline });
        m += 1;
        assert(out@ =~= before + Seq::new(
            m as nat,
            |i: int| InstallStep::Build { group, package: i as usize, offline },
        ));
    }
    let ghost built = out@;
    let mut m: usize = 0;
    while m < size
        invariant
            m <= size,
            out@ == built + Seq::new(
                m as nat,
                |i: int| InstallStep::Stage { group, package: i as usize },
            ),
        decreases size - m,
    {
        out.push(InstallStep::Stage { group, package: m });
        m += 1;
        assert(out@ =~= built + Seq::new(
            m as nat,
            |i: int| InstallStep::Stage { group, package: i as usize },
        ));
    }
    out.push(InstallStep::InstallGroup { group, asdeps: mark_as_dependency(asdeps, depth) });
    assert(out@ =~= before + group_steps(group as int, size as nat, depth as int, offline, asdeps));
}

/// The steps of an installation that has the summary confirmed, reviews
/// `bases` package bases and then works through `groups`.
pub fn plan_installation(
    bases: usize,
    groups: &Vec<DepthGroup>,
    offline: bool,
    asdeps: bool,
) -> (out: Vec<InstallStep>)
    ensures
        out@ == installation_steps(bases as nat, group_views(groups@), offline, asdeps),
{
    let ghost all = group_views(groups@);
    let mut out: Vec<InstallStep> = Vec::new();
    out.push(InstallStep::ConfirmSummary);
    let ghost start = out@;
    let mut b: usize = 0;
    while b < bases
        invariant
            b <= bases,
            out@ == start + Seq::new(b as nat, |i: int| InstallStep::Review { base: i as usize }),
        decreases bases - b,
    {
        out.push(InstallStep::Review { base: b });
        b += 1;
        assert(out@ =~= start + Seq::new(
            b as nat,
            |i: int| InstallStep::Review { base: i as usize },
        ));
    }
    out.push(InstallStep::InstallSystemPackages);
    let ghost head = out@;
    let mut g: usize = 0;
    assert(all.take(0) =~= Seq::<DepthGroupView>::empty());
    assert(out@ =~= head + schedule_steps(all.take(0), offline, asdeps));
    while g < groups.len()
        invariant
            g <= groups.len(),
            all == group_views(groups@),
            out@ == head + schedule_steps(all.take(g as int), offline, asdeps),
        decreases groups.len() - g,
    {
        let ghost before = out@;
        let ghost upto = all.take(g + 1);
        push_group_steps(&mut out, g, groups[g].packages.len(), groups[g].depth, offline, asdeps);
        proof {
            assert(upto.drop_last() =~= all.take(g as int));
            assert(upto.last() == all[g as int]);
            assert(all[g as int].packages.len() == groups[g as int].packages.len());
            assert(schedule_steps(upto, offline, asdeps) == schedule_steps(
                upto.drop_last(),
                offline,
                asdeps,
            ) + group_steps(g as int, upto.last().packages.len(), upto.last().depth, offline, asdeps));
            assert(out@ =~= head + schedule_steps(upto, offline, asdeps));
        }
        g += 1;
    }
    assert(all.take(groups.len() as int) =~= all);
    let ghost body = out@;
    let mut b: usize = 0;
    while b < bases
        invariant
            b <= bases,
            out@ == body + Seq::new(
                b as nat,
                |i: int| InstallStep::RemoveBuildDir { base: i as usize },
            ),
        decreases bases - b,
    {
        out.push(InstallStep::RemoveBuildDir { base: b });
        b += 1;
        assert(out@ =~= body + Seq::new(
            b as nat,
            |i: int| InstallStep::RemoveBuildDir { base: i as usize },
        ));
    }
    out
}

/// The place of a step in the course of an installation: its phase, the
/// package base or group it belongs to, its stage within the group, and the
/// package it is about.
pub open spec fn place(step: InstallStep) -> (int, int, int, int) {
    match step {
        InstallStep::ConfirmSummary => (0, 0, 0, 0),
        InstallStep::Review { base } => (1, base as int, 0, 0),
        InstallStep::InstallSystemPackages => (2, 0, 0, 0),
        InstallStep::Build { group, package, offline } => (3, group as int, 0, package as int),
        InstallStep::Stage { group, package } => (3, group as int, 1, package as int),
        InstallStep::InstallGroup { group, asdeps } => (3, group as int, 2, 0),
        InstallStep::RemoveBuildDir { base } => (4, base as int, 0, 0),
    }
}

/// One place lies before another.
pub open spec fn lies_before(a: (int, int, int, int), b: (int, int, int, int)) -> bool {
    a.0 < b.0 || (a.0 == b.0 && (a.1 < b.1 || (a.1 == b.1 && (a.2 < b.2 || (a.2 == b.2 && a.3
        < b.3)))))
}

/// Every step comes before every later step's place.
pub open spec fn in_order(steps: Seq<InstallStep>) -> bool {
    forall|i: int, j: int|
        0 <= i < j < steps.len() ==> lies_before(place(#[trigger] steps[i]), place(#[trigger] steps[j]))
}

/// The sizes fit the counters of the steps.
pub open spec fn countable(bases: nat, groups: Seq<DepthGroupView>) -> bool {
    &&& bases <= usize::MAX
    &&& groups.len() <= usize::MAX
    &&& forall|g: int| 0 <= g < groups.len() ==> (#[trigger] groups[g]).packages.len() <= usize::MAX
}

/// Two lists in order, the second after the first, are in order when every
/// step of the first lies before every step of the second.
proof fn in_order_joined(a: Seq<InstallStep>, b: Seq<InstallStep>)
    requires
        in_order(a),
        in_order(b),
        forall|i: int, j: int|
            0 <= i < a.len() && 0 <= j < b.len() ==> lies_before(
                place(#[trigger] a[i]),
                place(#[trigger] b[j]),
            ),
    ensures
        in_order(a + b),
{
    let c = a + b;
    assert forall|i: int, j: int| 0 <= i < j < c.len() implies lies_before(
        place(#[trigger] c[i]),
        place(#[trigger] c[j]),
    ) by {
        if j < a.len() {
            assert(c[i] == a[i] && c[j] == a[j]);
        } else if i < a.len() {
            assert(c[i] == a[i] && c[j] == b[j - a.len()]);
        } else {
            assert(c[i] == b[i - a.len()] && c[j] == b[j - a.len()]);
        }
    }
}

/// The steps for one group are in order, and all belong to that group.
proof fn group_steps_in_order(group: int, size: nat, depth: int, offline: bool, asdeps: bool)
    requires
        0 <= group <= usize::MAX,
        size <= usize::MAX,
    ensures
        in_order(group_steps(group, size, depth, offline, asdeps)),
        forall|i: int|
            0 <= i < group_steps(group, size, depth, offline, asdeps).len() ==> place(
                #[trigger] group_steps(group, size, depth, offline, asdeps)[i],
            ).0 == 3 && place(group_steps(group, size, depth, offline, asdeps)[i]).1 == group,
{
    let build = Seq::new(
        size,
        |m: int| InstallStep::Build { group: group as usize, package: m as usize, offline },
    );
    let stage = Seq::new(
        size,
        |m: int| InstallStep::Stage { group: group as usize, package: m as usize },
    );
    let last = seq![InstallStep::InstallGroup { group: group as usize, asdeps: asdeps || depth > 0 }];
    assert(in_order(build));
    assert(in_order(stage));
    assert(in_order(last));
    in_order_joined(build, stage);
    in_order_joined(build + stage, last);
}

/// The steps for the groups of a schedule are in order, and each belongs to
/// one of the groups.
proof fn schedule_steps_in_order(groups: Seq<DepthGroupView>, offline: bool, asdeps: bool)
    requires
        countable(0, groups),
    ensures
        in_order(schedule_steps(groups, offline, asdeps)),
        forall|i: int|
            0 <= i < schedule_steps(groups, offline, asdeps).len() ==> place(
                #[trigger] schedule_steps(groups, offline, asdeps)[i],
            ).0 == 3 && 0 <= place(schedule_steps(groups, offline, asdeps)[i]).1 < groups.len(),
    decreases groups.len(),
{
    if groups.len() > 0 {
        let before = groups.drop_last();
        assert forall|g: int| 0 <= g < before.len() implies (#[trigger] before[g]).packages.len()
            <= usize::MAX by {
            assert(before[g] == groups[g]);
        }
        schedule_steps_in_order(before, offline, asdeps);
        let g = groups.len() - 1;
        assert(groups[g] == groups.last());
        group_steps_in_order(g, groups.last().packages.len(), groups.last().depth, offline, asdeps);
        in_order_joined(
            schedule_steps(before, offline, asdeps),
            group_steps(g, groups.last().packages.len(), groups.last().depth, offline, asdeps),
        );
    }
}

/// The steps of an installation come in the order of their places: the
/// summary first; then the reviews, all of them before anything is built;
/// then the system packages; then group after group, and within a group
/// every build before every staging and the installation last; and the
/// removal of the build directories at the very end.
pub proof fn steps_are_in_order(
    bases: nat,
    groups: Seq<DepthGroupView>,
    offline: bool,
    asdeps: bool,
)
    requires
        countable(bases, groups),
    ensures
        in_order(installation_steps(bases, groups, offline, asdeps)),
{
    let first = seq![InstallStep::ConfirmSummary];
    let reviews = Seq::new(bases, |b: int| InstallStep::Review { base: b as usize });
    let system = seq![InstallStep::InstallSystemPackages];
    let body = schedule_steps(groups, offline, asdeps);
    let removals = Seq::new(bases, |b: int| InstallStep::RemoveBuildDir { base: b as usize });
    schedule_steps_in_order(groups, offline, asdeps);
    assert(in_order(first));
    assert(in_order(reviews));
    assert(in_order(system));
    assert(in_order(removals));
    in_order_joined(first, reviews);
    in_order_joined(first + reviews, system);
    in_order_joined(first + reviews + system, body);
    in_order_joined(first + reviews + system + body, removals);
}

/// Whatever is installed, be it a single package, the first step has the
/// summary confirmed, and no other step does: nothing is reviewed, built,
/// installed or removed before the user has confirmed.
pub proof fn summary_is_confirmed_first(
    bases: nat,
    groups: Seq<DepthGroupView>,
    offline: bool,
    asdeps: bool,
)
    requires
        countable(bases, groups),
    ensures
        installation_steps(bases, groups, offline, asdeps).len() > 0,
        installation_steps(bases, groups, offline, asdeps)[0] == InstallStep::ConfirmSummary,
        forall|i: int|
            0 < i < installation_steps(bases, groups, offline, asdeps).len()
                ==> #[trigger] installation_steps(bases, groups, offline, asdeps)[i]
                != InstallStep::ConfirmSummary,
{
    let steps = installation_steps(bases, groups, offline, asdeps);
    steps_are_in_order(bases, groups, offline, asdeps);
    assert(steps[0] == InstallStep::ConfirmSummary);
    assert forall|i: int| 0 < i < steps.len() implies #[trigger] steps[i]
        != InstallStep::ConfirmSummary by {
        assert(lies_before(place(steps[0]), place(steps[i])));
    }
}

/// Every package of every group is built and staged, and every group is
/// installed.
pub proof fn every_group_is_worked_through(
    groups: Seq<DepthGroupView>,
    offline: bool,
    asdeps: bool,
    g: int,
    m: int,
)
    requires
        0 <= g < groups.len(),
        0 <= m < groups[g].packages.len(),
    ensures
        schedule_steps(groups, offline, asdeps).contains(
            InstallStep::Build { group: g as usize, package: m as usize, offline },
        ),
        schedule_steps(groups, offline, asdeps).contains(
            InstallStep::Stage { group: g as usize, package: m as usize },
        ),
        schedule_steps(groups, offline, asdeps).contains(
            InstallStep::InstallGroup { group: g as usize, asdeps: asdeps || groups[g].depth > 0 },
        ),
    decreases groups.len(),
{
    let before = groups.drop_last();
    let earlier = schedule_steps(before, offline, asdeps);
    let size = groups.last().packages.len() as int;
    let these = group_steps(groups.len() - 1, size as nat, groups.last().depth, offline, asdeps);
    let all = schedule_steps(groups, offline, asdeps);
    assert(all == earlier + these);
    if g < groups.len() - 1 {
        every_group_is_worked_through(before, offline, asdeps, g, m);
        let build = InstallStep::Build { group: g as usize, package: m as usize, offline };
        let stage = InstallStep::Stage { group: g as usize, package: m as usize };
        let install = InstallStep::InstallGroup {
            group: g as usize,
            asdeps: asdeps || groups[g].depth > 0,
        };
        let i = choose|i: int| 0 <= i < earlier.len() && earlier[i] == build;
        assert(all[i] == build);
        let j = choose|j: int| 0 <= j < earlier.len() && earlier[j] == stage;
        assert(all[j] == stage);
        let k = choose|k: int| 0 <= k < earlier.len() && earlier[k] == install;
        assert(all[k] == install);
    } else {
        assert(these.len() == size + size + 1);
        assert(all[earlier.len() + m] == these[m]);
        assert(all[earlier.len() + size + m] == these[size + m]);
        assert(all[earlier.len() + size + size] == these[size + size]);
    }
}

/// A group is built only after every deeper group has been built and
/// installed: in a schedule, the installation of a group that lies deeper
/// comes before every build of a group that lies less deep.
pub proof fn deeper_groups_are_installed_first(
    bases: nat,
    groups: Seq<DepthGroupView>,
    offline: bool,
    asdeps: bool,
    i: int,
    j: int,
)
    requires
        countable(bases, groups),
        is_cut_by_depth(groups),
        0 <= i < installation_steps(bases, groups, offline, asdeps).len(),
        0 <= j < installation_steps(bases, groups, offline, asdeps).len(),
        installation_steps(bases, groups, offline, asdeps)[i] is InstallGroup,
        installation_steps(bases, groups, offline, asdeps)[j] is Build,
        ({
            let deeper = installation_steps(bases, groups, offline, asdeps)[i]->InstallGroup_group;
            let shallower = installation_steps(bases, groups, offline, asdeps)[j]->Build_group;
            deeper < groups.len() && shallower < groups.len() && groups[deeper as int].depth
                > groups[shallower as int].depth
        }),
    ensures
        i < j,
{
    let steps = installation_steps(bases, groups, offline, asdeps);
    steps_are_in_order(bases, groups, offline, asdeps);
    let deeper = steps[i]->InstallGroup_group as int;
    let shallower = steps[j]->Build_group as int;
    if shallower <= deeper {
        if shallower < deeper {
            assert(groups[shallower].depth > groups[deeper].depth);
        }
        assert(false);
    }
    if j < i {
        assert(lies_before(place(steps[j]), place(steps[i])));
    }
}

} // verus!

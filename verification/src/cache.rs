//! The build cache: one revision-tagged directory per package, reached
//! through a stable symlink. This module decides when an earlier build is
//! kept and, when it is not, which steps tear the old directory down and set
//! a fresh one up.

use crate::names::chars_of;
use crate::names::ends_with;
use crate::names::has_suffix;
use crate::names::opt_view;
use crate::names::owned;
use crate::names::same_text;
use crate::names::starts_with;
use crate::names::views;
use crate::review::reusable;
use crate::review::ReviewOutcome;
use vstd::prelude::*;

verus! {

/// The packages whose earlier build the user chose to keep in this run.
pub struct CachedSet {
    names: Vec<String>,
}

impl View for CachedSet {
    type V = Set<Seq<char>>;

    closed spec fn view(&self) -> Set<Seq<char>> {
        views(self.names@).to_set()
    }
}

impl CachedSet {
    #[verifier::type_invariant]
    spec fn distinct(&self) -> bool {
        views(self.names@).no_duplicates()
    }

    /// The empty set.
    pub fn new() -> (out: Self)
        ensures
            out@ == Set::<Seq<char>>::empty(),
    {
        let out = CachedSet { names: Vec::new() };
        assert(views(out.names@) =~= Seq::<Seq<char>>::empty());
        assert(out@ =~= Set::<Seq<char>>::empty());
        out
    }

    /// Whether `pkgbase` is in the set.
    pub fn contains(&self, pkgbase: &str) -> (out: bool)
        ensures
            out == self@.contains(pkgbase@),
    {
        let mut i: usize = 0;
        while i < self.names.len()
            invariant
                i <= self.names.len(),
                forall|j: int| 0 <= j < i ==> views(self.names@)[j] != pkgbase@,
            decreases self.names.len() - i,
        {
            if same_text(self.names[i].as_str(), pkgbase) {
                assert(views(self.names@)[i as int] == pkgbase@);
                return true;
            }
            i += 1;
        }
        false
    }

    /// Adds `pkgbase` to the set. Returns whether it was new.
    pub fn insert(&mut self, pkgbase: &str) -> (added: bool)
        ensures
            final(self)@ == old(self)@.insert(pkgbase@),
            added == !old(self)@.contains(pkgbase@),
    {
        proof {
            use_type_invariant(&*self);
        }
        if self.contains(pkgbase) {
            assert(self@.insert(pkgbase@) =~= self@);
            false
        } else {
            let ghost before = views(self.names@);
            let mut names: Vec<String> = Vec::new();
            assert(views(names@) =~= Seq::<Seq<char>>::empty());
            std::mem::swap(&mut names, &mut self.names);
            names.push(owned(pkgbase));
            assert(views(names@) =~= before.push(pkgbase@));
            self.names = names;
            assert(before.push(pkgbase@).to_set() =~= before.to_set().insert(pkgbase@)) by {
                let after = before.push(pkgbase@);
                assert forall|n: Seq<char>| after.to_set().contains(n) implies before.to_set().insert(
                    pkgbase@,
                ).contains(n) by {
                    let k = choose|k: int| 0 <= k < after.len() && after[k] == n;
                    if k < before.len() {
                        assert(before[k] == n);
                    }
                }
                assert forall|n: Seq<char>|
                    before.to_set().insert(pkgbase@).contains(n) implies after.to_set().contains(
                    n,
                ) by {
                    if n == pkgbase@ {
                        assert(after[before.len() as int] == n);
                    } else {
                        let k = choose|k: int| 0 <= k < before.len() && before[k] == n;
                        assert(after[k] == n);
                    }
                }
            }
            true
        }
    }

    /// The number of packages in the set.
    pub fn len(&self) -> (out: usize)
        ensures
            out == self@.len(),
            self@.finite(),
    {
        proof {
            use_type_invariant(self);
            views(self.names@).unique_seq_to_set();
        }
        self.names.len()
    }

    /// Takes note of how the review of `pkgbase` ended: the package joins the
    /// set exactly when the user chose to keep its earlier build.
    pub fn record(&mut self, pkgbase: &str, outcome: ReviewOutcome)
        ensures
            final(self)@ == recorded(old(self)@, pkgbase@, outcome),
    {
        match outcome {
            ReviewOutcome::KeepCached => {
                self.insert(pkgbase);
            },
            ReviewOutcome::Approved => {},
        }
    }
}

/// The token that stands for the revision where none can be determined. It
/// names the build directory only: a build made under it is never reused.
pub open spec fn fallback_revision() -> Seq<char> {
    seq!['h', 'e', 'a', 'd']
}

/// The short revision of a checkout: its head where known, else the
/// fallback token.
pub open spec fn short_revision_of(head: Option<Seq<char>>) -> Seq<char> {
    match head {
        Some(rev) => rev,
        None => fallback_revision(),
    }
}

/// The short revision identifier of a checkout whose head is `head`.
pub fn short_revision(head: &Option<String>) -> (out: String)
    ensures
        out@ == short_revision_of(opt_view(*head)),
{
    match head {
        Some(rev) => owned(rev.as_str()),
        None => {
            proof {
                reveal_strlit("head");
            }
            let out = owned("head");
            assert(out@ =~= fallback_revision());
            out
        },
    }
}

/// The name of the build directory of `pkgbase` at revision `rev`:
/// the package, a hyphen, the revision.
pub open spec fn revision_dir_name_of(pkgbase: Seq<char>, rev: Seq<char>) -> Seq<char> {
    pkgbase + seq!['-'] + rev
}

/// The name of the revision-tagged build directory of `pkgbase`.
pub fn revision_dir_name(pkgbase: &str, short_rev: &str) -> (out: String)
    ensures
        out@ == revision_dir_name_of(pkgbase@, short_rev@),
{
    proof {
        reveal_strlit("-");
    }
    let mut out = owned(pkgbase);
    out.append("-");
    out.append(short_rev);
    assert("-"@ =~= seq!['-']);
    out
}

/// The revision tag that a directory name carries for `pkgbase`: what
/// follows the package and a hyphen, if the name starts with them.
pub open spec fn revision_tag_of(pkgbase: Seq<char>, dir_name: Seq<char>) -> Option<Seq<char>> {
    let prefix = pkgbase + seq!['-'];
    if starts_with(dir_name, prefix) {
        Some(dir_name.skip(prefix.len() as int))
    } else {
        None
    }
}

/// The build directory that is live for a package.
#[derive(Clone, Debug, PartialEq, Eq)]
pub enum BuildDirectoryRecord {
    /// No directory is linked.
    Absent,
    /// A directory is linked, built from this revision.
    Tagged { revision: String },
}

impl View for BuildDirectoryRecord {
    type V = Option<Seq<char>>;

    open spec fn view(&self) -> Option<Seq<char>> {
        match *self {
            BuildDirectoryRecord::Absent => None,
            BuildDirectoryRecord::Tagged { revision } => Some(revision@),
        }
    }
}

impl BuildDirectoryRecord {
    /// Reads the record of `pkgbase` off the target of its symlink:
    /// `link_target` is the name of the directory that the link points at,
    /// or `None` where there is no link. A target that is not named after
    /// the package carries no tag.
    pub fn read(pkgbase: &str, link_target: &Option<String>) -> (out: Self)
        ensures
            out@ == match opt_view(*link_target) {
                Some(name) => revision_tag_of(pkgbase@, name),
                None => None,
            },
    {
        match link_target {
            None => BuildDirectoryRecord::Absent,
            Some(name) => {
                let p = chars_of(pkgbase);
                let n = chars_of(name.as_str());
                let ghost prefix = pkgbase@ + seq!['-'];
                if n.len() <= p.len() {
                    return BuildDirectoryRecord::Absent;
                }
                let mut i: usize = 0;
                while i < p.len()
                    invariant
                        i <= p.len(),
                        p.len() < n.len(),
                        p@ == pkgbase@,
                        n@ == name@,
                        opt_view(*link_target) == Some(name@),
                        prefix == pkgbase@ + seq!['-'],
                        forall|j: int| 0 <= j < i ==> n@[j] == p@[j],
                    decreases p.len() - i,
                {
                    if n[i] != p[i] {
                        assert(n@.take(prefix.len() as int)[i as int] != prefix[i as int]);
                        return BuildDirectoryRecord::Absent;
                    }
                    i += 1;
                }
                if n[p.len()] != '-' {
                    assert(n@.take(prefix.len() as int)[p.len() as int] != prefix[p.len() as int]);
                    return BuildDirectoryRecord::Absent;
                }
                assert(n@.take(prefix.len() as int) =~= prefix);
                let revision = name.as_str().substring_char(p.len() + 1, n.len());
                assert(revision@ =~= name@.skip(prefix.len() as int));
                BuildDirectoryRecord::Tagged { revision: owned(revision) }
            },
        }
    }

    /// The revision tag, if a directory is linked.
    pub fn revision(&self) -> (out: Option<String>)
        ensures
            opt_view(out) == self@,
    {
        match self {
            BuildDirectoryRecord::Absent => None,
            BuildDirectoryRecord::Tagged { revision } => Some(owned(revision.as_str())),
        }
    }
}

/// Some name of the list ends with the suffix.
pub open spec fn any_ends_with(names: Seq<Seq<char>>, suffix: Seq<char>) -> bool {
    exists|i: int| 0 <= i < names.len() && ends_with(#[trigger] names[i], suffix)
}

/// Some file of the listing ends with the package-file suffix. A directory
/// that could not be listed holds none.
pub open spec fn has_pkg_files(listing: Option<Seq<Seq<char>>>, pkgext: Seq<char>) -> bool {
    match listing {
        Some(names) => any_ends_with(names, pkgext),
        None => false,
    }
}

/// The view of a directory listing.
pub open spec fn listing_view(listing: Option<Vec<String>>) -> Option<Seq<Seq<char>>> {
    match listing {
        Some(names) => Some(views(names@)),
        None => None,
    }
}

/// Whether the build directory, whose file names are `listing` (`None` where
/// it could not be read), holds at least one file that ends with `pkgext`.
pub fn build_dir_has_pkg_files(listing: &Option<Vec<String>>, pkgext: &str) -> (out: bool)
    ensures
        out == has_pkg_files(listing_view(*listing), pkgext@),
{
    match listing {
        None => false,
        Some(names) => {
            let mut i: usize = 0;
            while i < names.len()
                invariant
                    i <= names.len(),
                    listing_view(*listing) == Some(views(names@)),
                    forall|j: int| 0 <= j < i ==> !ends_with(#[trigger] views(names@)[j], pkgext@),
                decreases names.len() - i,
            {
                if has_suffix(names[i].as_str(), pkgext) {
                    assert(ends_with(views(names@)[i as int], pkgext@));
                    return true;
                }
                i += 1;
            }
            false
        },
    }
}

/// An earlier build is kept exactly when the package is in the cached set,
/// the head revision of the checkout is known and is the revision tag of the
/// build directory, and the directory still holds a built package. A
/// checkout whose head is unknown is stale for good: it never hits, whatever
/// the build directory is tagged with.
pub open spec fn cache_hit(
    cached: Set<Seq<char>>,
    pkgbase: Seq<char>,
    build_rev: Option<Seq<char>>,
    head: Option<Seq<char>>,
    has_files: bool,
) -> bool {
    cached.contains(pkgbase) && head is Some && build_rev == head && has_files
}

/// Whether the earlier build of `pkgbase` is kept instead of building anew.
///
/// `head` is the head revision of the reviewed checkout, `None` where it
/// cannot be told; `record` is the live build directory, and `listing` the
/// file names in it (`None` where it cannot be read).
pub fn use_cache(
    cached: &CachedSet,
    pkgbase: &str,
    record: &BuildDirectoryRecord,
    head: &Option<String>,
    listing: &Option<Vec<String>>,
    pkgext: &str,
) -> (out: bool)
    ensures
        out == cache_hit(
            cached@,
            pkgbase@,
            record@,
            opt_view(*head),
            has_pkg_files(listing_view(*listing), pkgext@),
        ),
{
    if !cached.contains(pkgbase) {
        return false;
    }
    let same = match (record, head) {
        (BuildDirectoryRecord::Tagged { revision }, Some(rev)) => same_text(
            revision.as_str(),
            rev.as_str(),
        ),
        _ => false,
    };
    same && build_dir_has_pkg_files(listing, pkgext)
}

/// What is found where the symlink of a package should be, looked at without
/// following it.
#[derive(Clone, Copy, Debug, PartialEq, Eq, Structural)]
pub enum BuildDirProbe {
    /// Nothing is there.
    Absent,
    /// A symlink; `target_exists` tells whether it resolves.
    Link { target_exists: bool },
    /// A plain directory.
    Directory,
    /// Something else.
    Other,
}

/// One step on the build directory of a package. Each step that fails is
/// fatal for the run.
#[derive(Clone, Copy, Debug, PartialEq, Eq, Structural)]
pub enum BuildStep {
    /// Remove the directory tree that the symlink resolves to.
    RemoveLinkTarget,
    /// Remove the symlink itself.
    RemoveBuildLink,
    /// Remove the plain directory that stands where the symlink should be.
    RemoveBuildDirectory,
    /// Remove the revision-tagged directory, if one of that name is left.
    RemoveRevisionDir,
    /// Create the revision-tagged directory.
    CreateRevisionDir,
    /// Point the symlink at the revision-tagged directory, by its name.
    LinkRevisionDir,
    /// Copy the contents of the reviewed directory into the build location.
    CopyReviewedContents,
    /// Remove the version-control metadata from the copy.
    StripVcsMetadata,
    /// Build in the build location.
    Build { offline: bool, interactive: bool },
}

/// The steps that remove the build directory of a package. A symlink is
/// removed together with the tree it resolves to; one whose target is gone
/// is left alone, as is anything that is neither a symlink nor a directory.
pub open spec fn teardown_steps(probe: BuildDirProbe) -> Seq<BuildStep> {
    match probe {
        BuildDirProbe::Link { target_exists: true } => seq![
            BuildStep::RemoveLinkTarget,
            BuildStep::RemoveBuildLink,
        ],
        BuildDirProbe::Directory => seq![BuildStep::RemoveBuildDirectory],
        _ => seq![],
    }
}

/// The steps that set up a fresh build directory once the old one is torn
/// down: a stale directory of the same name goes, the directory is created,
/// and the symlink is created, replacing a dangling one.
pub open spec fn setup_steps(probe: BuildDirProbe) -> Seq<BuildStep> {
    let fresh = seq![BuildStep::RemoveRevisionDir, BuildStep::CreateRevisionDir];
    if probe == (BuildDirProbe::Link { target_exists: false }) {
        fresh + seq![BuildStep::RemoveBuildLink, BuildStep::LinkRevisionDir]
    } else {
        fresh + seq![BuildStep::LinkRevisionDir]
    }
}

/// The steps that build a package anew: tear down, set up, copy the reviewed
/// recipe, strip its version-control metadata, build without interaction.
pub open spec fn rebuild_steps(probe: BuildDirProbe, offline: bool) -> Seq<BuildStep> {
    teardown_steps(probe) + setup_steps(probe) + seq![
        BuildStep::CopyReviewedContents,
        BuildStep::StripVcsMetadata,
        BuildStep::Build { offline, interactive: false },
    ]
}

/// The steps that make sure no build directory is left for a package.
pub fn ensure_build_dir_removed(probe: BuildDirProbe) -> (out: Vec<BuildStep>)
    ensures
        out@ == teardown_steps(probe),
{
    let mut out: Vec<BuildStep> = Vec::new();
    match probe {
        BuildDirProbe::Link { target_exists } => {
            if target_exists {
                out.push(BuildStep::RemoveLinkTarget);
                out.push(BuildStep::RemoveBuildLink);
            }
        },
        BuildDirProbe::Directory => {
            out.push(BuildStep::RemoveBuildDirectory);
        },
        _ => {},
    }
    assert(out@ =~= teardown_steps(probe));
    out
}

/// A fresh build directory: its name, and the steps that put it in place.
#[derive(Clone, Debug, PartialEq, Eq)]
pub struct BuildDirPlan {
    pub revision_dir: String,
    pub steps: Vec<BuildStep>,
}

/// The name of a fresh build directory for `pkgbase` at `short_rev`, and the
/// steps that replace whatever `probe` found with it.
pub fn create_build_dir(pkgbase: &str, short_rev: &str, probe: BuildDirProbe) -> (out:
    BuildDirPlan)
    ensures
        out.revision_dir@ == revision_dir_name_of(pkgbase@, short_rev@),
        out.steps@ == teardown_steps(probe) + setup_steps(probe),
{
    let mut steps = ensure_build_dir_removed(probe);
    steps.push(BuildStep::RemoveRevisionDir);
    steps.push(BuildStep::CreateRevisionDir);
    match probe {
        BuildDirProbe::Link { target_exists } => {
            if !target_exists {
                steps.push(BuildStep::RemoveBuildLink);
            }
        },
        _ => {},
    }
    steps.push(BuildStep::LinkRevisionDir);
    assert(steps@ =~= teardown_steps(probe) + setup_steps(probe));
    BuildDirPlan { revision_dir: revision_dir_name(pkgbase, short_rev), steps }
}

/// What is done about the build directory of one package when its turn
/// comes: nothing where the earlier build is kept, else the steps of
/// [`rebuild_steps`] on a directory named after the current short revision,
/// which is the fallback token where the head is unknown.
pub open spec fn prepared(
    cached: Set<Seq<char>>,
    pkgbase: Seq<char>,
    head: Option<Seq<char>>,
    build_rev: Option<Seq<char>>,
    has_files: bool,
    probe: BuildDirProbe,
    offline: bool,
) -> Option<(Seq<char>, Seq<BuildStep>)> {
    if cache_hit(cached, pkgbase, build_rev, head, has_files) {
        None
    } else {
        Some(
            (
                revision_dir_name_of(pkgbase, short_revision_of(head)),
                rebuild_steps(probe, offline),
            ),
        )
    }
}

/// The view of an optional plan.
pub open spec fn plan_view(plan: Option<BuildDirPlan>) -> Option<(Seq<char>, Seq<BuildStep>)> {
    match plan {
        Some(p) => Some((p.revision_dir@, p.steps@)),
        None => None,
    }
}

/// Decides, for one package whose turn has come, between keeping the earlier
/// build (`None`) and building anew (the directory name and the steps).
///
/// `head` is the head revision of the reviewed checkout, `record` the live
/// build directory, `listing` the file names in it (`None` where it cannot be
/// read), and `probe` what stands where its symlink should be.
pub fn prepare_build(
    cached: &CachedSet,
    pkgbase: &str,
    head: &Option<String>,
    record: &BuildDirectoryRecord,
    listing: &Option<Vec<String>>,
    pkgext: &str,
    probe: BuildDirProbe,
    offline: bool,
) -> (out: Option<BuildDirPlan>)
    ensures
        plan_view(out) == prepared(
            cached@,
            pkgbase@,
            opt_view(*head),
            record@,
            has_pkg_files(listing_view(*listing), pkgext@),
            probe,
            offline,
        ),
{
    if use_cache(cached, pkgbase, record, head, listing, pkgext) {
        None
    } else {
        let short_rev = short_revision(head);
        let plan = create_build_dir(pkgbase, short_rev.as_str(), probe);
        let mut steps = plan.steps;
        steps.push(BuildStep::CopyReviewedContents);
        steps.push(BuildStep::StripVcsMetadata);
        steps.push(BuildStep::Build { offline, interactive: false });
        assert(steps@ =~= rebuild_steps(probe, offline));
        Some(BuildDirPlan { revision_dir: plan.revision_dir, steps })
    }
}

/// The cached set after the review of `pkgbase` ended with `outcome`.
pub open spec fn recorded(cached: Set<Seq<char>>, pkgbase: Seq<char>, outcome: ReviewOutcome) -> Set<
    Seq<char>,
> {
    if outcome == ReviewOutcome::KeepCached {
        cached.insert(pkgbase)
    } else {
        cached
    }
}

/// An earlier build is kept only if all three conditions hold: take any one
/// away (the user did not keep the cache, the revision differs, or the
/// directory holds no built package) and the package is built anew.
pub proof fn rebuild_unless_all_conditions_hold(
    cached: Set<Seq<char>>,
    pkgbase: Seq<char>,
    build_rev: Option<Seq<char>>,
    short_rev: Seq<char>,
    has_files: bool,
)
    ensures
        cache_hit(cached, pkgbase, build_rev, Some(short_rev), has_files) <==> cached.contains(
            pkgbase,
        ) && build_rev == Some(short_rev) && has_files,
        !cached.contains(pkgbase) ==> !cache_hit(
            cached,
            pkgbase,
            build_rev,
            Some(short_rev),
            has_files,
        ),
        build_rev != Some(short_rev) ==> !cache_hit(
            cached,
            pkgbase,
            build_rev,
            Some(short_rev),
            has_files,
        ),
        !has_files ==> !cache_hit(cached, pkgbase, build_rev, Some(short_rev), has_files),
{
}

/// A checkout whose head revision is unknown is never served from the
/// cache: whatever the cached set holds, whatever the build directory is
/// tagged with (be it the fallback token itself) and whatever files it
/// holds, the package is built anew, in a directory named after the fallback
/// token.
pub proof fn unknown_revision_never_hits(
    cached: Set<Seq<char>>,
    pkgbase: Seq<char>,
    build_rev: Option<Seq<char>>,
    has_files: bool,
    probe: BuildDirProbe,
    offline: bool,
)
    ensures
        !cache_hit(cached, pkgbase, build_rev, None, has_files),
        prepared(cached, pkgbase, None, build_rev, has_files, probe, offline) == Some(
            (revision_dir_name_of(pkgbase, fallback_revision()), rebuild_steps(probe, offline)),
        ),
{
}

/// A package that the user approved for building, rather than keeping its
/// cache, is built anew: approval does not put it in the cached set.
pub proof fn approval_does_not_cache(
    cached: Set<Seq<char>>,
    pkgbase: Seq<char>,
    build_rev: Option<Seq<char>>,
    head: Option<Seq<char>>,
    has_files: bool,
)
    requires
        !cached.contains(pkgbase),
    ensures
        !cache_hit(
            recorded(cached, pkgbase, ReviewOutcome::Approved),
            pkgbase,
            build_rev,
            head,
            has_files,
        ),
{
}

/// The revision tag is read back from the directory name it was written to.
pub proof fn revision_tag_round_trip(pkgbase: Seq<char>, rev: Seq<char>)
    ensures
        revision_tag_of(pkgbase, revision_dir_name_of(pkgbase, rev)) == Some(rev),
{
    let prefix = pkgbase + seq!['-'];
    let name = revision_dir_name_of(pkgbase, rev);
    assert(name.take(prefix.len() as int) =~= prefix);
    assert(name.skip(prefix.len() as int) =~= rev);
}

/// A build directory is reused only at the revision it was built from: after
/// a rebuild at `built`, a later run at another revision `now` misses.
pub proof fn other_revision_misses(
    cached: Set<Seq<char>>,
    pkgbase: Seq<char>,
    built: Seq<char>,
    now: Seq<char>,
    has_files: bool,
)
    requires
        built != now,
    ensures
        !cache_hit(
            cached,
            pkgbase,
            revision_tag_of(pkgbase, revision_dir_name_of(pkgbase, built)),
            Some(now),
            has_files,
        ),
{
    revision_tag_round_trip(pkgbase, built);
}

/// What stands where the symlink of a package should be.
pub enum LinkPlace {
    Nothing,
    /// A symlink to the directory of this name in the build root.
    Link { target: Seq<char> },
    Directory,
    Other,
}

/// The build root as far as it concerns one package: what stands in the
/// place of its symlink, and the names of the directories beside it.
pub struct BuildRoot {
    pub place: LinkPlace,
    pub dirs: Set<Seq<char>>,
}

/// What a probe finds in a build root.
pub open spec fn probe_of(root: BuildRoot) -> BuildDirProbe {
    match root.place {
        LinkPlace::Nothing => BuildDirProbe::Absent,
        LinkPlace::Link { target } => BuildDirProbe::Link {
            target_exists: root.dirs.contains(target),
        },
        LinkPlace::Directory => BuildDirProbe::Directory,
        LinkPlace::Other => BuildDirProbe::Other,
    }
}

/// The build root after one step on the build directory named `name`, or
/// `None` where the step fails: a symlink cannot be created where something
/// stands already, and only a symlink or a file can be removed as one.
pub open spec fn after_build_step(root: BuildRoot, name: Seq<char>, step: BuildStep) -> Option<
    BuildRoot,
> {
    match step {
        BuildStep::RemoveLinkTarget => match root.place {
            LinkPlace::Link { target } => Some(
                BuildRoot { place: root.place, dirs: root.dirs.remove(target) },
            ),
            _ => Some(root),
        },
        BuildStep::RemoveBuildLink => match root.place {
            LinkPlace::Link { target } => Some(
                BuildRoot { place: LinkPlace::Nothing, dirs: root.dirs },
            ),
            LinkPlace::Other => Some(BuildRoot { place: LinkPlace::Nothing, dirs: root.dirs }),
            _ => None,
        },
        BuildStep::RemoveBuildDirectory => Some(
            BuildRoot { place: LinkPlace::Nothing, dirs: root.dirs },
        ),
        BuildStep::RemoveRevisionDir => Some(
            BuildRoot { place: root.place, dirs: root.dirs.remove(name) },
        ),
        BuildStep::CreateRevisionDir => Some(
            BuildRoot { place: root.place, dirs: root.dirs.insert(name) },
        ),
        BuildStep::LinkRevisionDir => match root.place {
            LinkPlace::Nothing => Some(
                BuildRoot { place: LinkPlace::Link { target: name }, dirs: root.dirs },
            ),
            _ => None,
        },
        _ => Some(root),
    }
}

/// The build root after a list of steps, or `None` where one of them fails.
pub open spec fn after_build_steps(root: BuildRoot, name: Seq<char>, steps: Seq<BuildStep>) -> Option<
    BuildRoot,
>
    decreases steps.len(),
{
    if steps.len() == 0 {
        Some(root)
    } else {
        match after_build_steps(root, name, steps.drop_last()) {
            Some(before) => after_build_step(before, name, steps.last()),
            None => None,
        }
    }
}

/// The directories that are left once the one that the symlink pointed at is
/// gone.
pub open spec fn without_linked(root: BuildRoot) -> Set<Seq<char>> {
    match root.place {
        LinkPlace::Link { target } => root.dirs.remove(target),
        _ => root.dirs,
    }
}

/// Tearing down removes a live build directory with its symlink, and a plain
/// directory; a symlink whose target is gone is left as it is, and so is
/// anything else.
pub proof fn teardown_leaves_no_live_directory(root: BuildRoot, name: Seq<char>)
    ensures
        after_build_steps(root, name, teardown_steps(probe_of(root))) == Some(
            match root.place {
                LinkPlace::Link { target } => if root.dirs.contains(target) {
                    BuildRoot { place: LinkPlace::Nothing, dirs: root.dirs.remove(target) }
                } else {
                    root
                },
                LinkPlace::Directory => BuildRoot { place: LinkPlace::Nothing, dirs: root.dirs },
                _ => root,
            },
        ),
{
    let steps = teardown_steps(probe_of(root));
    if steps.len() == 2 {
        let one = steps.drop_last();
        assert(one.drop_last() =~= Seq::<BuildStep>::empty());
        assert(after_build_steps(root, name, one.drop_last()) == Some(root));
        assert(one.last() == BuildStep::RemoveLinkTarget);
        assert(steps.last() == BuildStep::RemoveBuildLink);
        assert(after_build_steps(root, name, one) == after_build_step(root, name, one.last()));
    } else if steps.len() == 1 {
        assert(steps.drop_last() =~= Seq::<BuildStep>::empty());
        assert(after_build_steps(root, name, steps.drop_last()) == Some(root));
        assert(steps.last() == BuildStep::RemoveBuildDirectory);
    }
}

/// The steps of a list, carried out after the steps of another.
proof fn steps_one_after_the_other(
    root: BuildRoot,
    name: Seq<char>,
    first: Seq<BuildStep>,
    then: Seq<BuildStep>,
)
    ensures
        after_build_steps(root, name, first + then) == match after_build_steps(root, name, first) {
            Some(between) => after_build_steps(between, name, then),
            None => None,
        },
    decreases then.len(),
{
    if then.len() == 0 {
        assert(first + then =~= first);
    } else {
        steps_one_after_the_other(root, name, first, then.drop_last());
        assert((first + then).drop_last() =~= first + then.drop_last());
        assert((first + then).last() == then.last());
    }
}

/// Building anew never fails on what is in the build root, whatever symlink
/// or directory stands in the way, be the symlink live or dangling. When it
/// is done the symlink points at the fresh directory, and the directory that
/// it pointed at before is gone: of one package, one build directory is kept.
pub proof fn rebuild_sets_up_one_directory(root: BuildRoot, name: Seq<char>, offline: bool)
    requires
        !(root.place is Other),
    ensures
        after_build_steps(root, name, rebuild_steps(probe_of(root), offline)) == Some(
            BuildRoot {
                place: LinkPlace::Link { target: name },
                dirs: without_linked(root).insert(name),
            },
        ),
{
    let probe = probe_of(root);
    let torn = after_build_steps(root, name, teardown_steps(probe))->0;
    teardown_leaves_no_live_directory(root, name);
    let setup = setup_steps(probe);
    let rest = seq![
        BuildStep::CopyReviewedContents,
        BuildStep::StripVcsMetadata,
        BuildStep::Build { offline, interactive: false },
    ];
    steps_one_after_the_other(root, name, teardown_steps(probe), setup);
    steps_one_after_the_other(root, name, teardown_steps(probe) + setup, rest);
    let fresh = BuildRoot {
        place: LinkPlace::Link { target: name },
        dirs: without_linked(root).insert(name),
    };
    assert(after_build_steps(torn, name, setup) == Some(fresh)) by {
        let s0 = Seq::<BuildStep>::empty();
        let s1 = seq![BuildStep::RemoveRevisionDir];
        let s2 = seq![BuildStep::RemoveRevisionDir, BuildStep::CreateRevisionDir];
        assert(s1.drop_last() =~= s0);
        assert(s2.drop_last() =~= s1);
        assert(after_build_steps(torn, name, s0) == Some(torn));
        assert(after_build_steps(torn, name, s1) == after_build_step(torn, name, s1.last()));
        let cleared = BuildRoot { place: torn.place, dirs: torn.dirs.remove(name) };
        assert(after_build_steps(torn, name, s2) == after_build_step(cleared, name, s2.last()));
        let made = BuildRoot { place: torn.place, dirs: torn.dirs.remove(name).insert(name) };
        assert(torn.dirs.remove(name).insert(name) =~= without_linked(root).insert(name));
        if probe == (BuildDirProbe::Link { target_exists: false }) {
            let s3 = s2.push(BuildStep::RemoveBuildLink);
            let s4 = s3.push(BuildStep::LinkRevisionDir);
            assert(setup =~= s4);
            assert(s3.drop_last() =~= s2);
            assert(s4.drop_last() =~= s3);
            assert(after_build_steps(torn, name, s3) == after_build_step(made, name, s3.last()));
            let unlinked = BuildRoot { place: LinkPlace::Nothing, dirs: made.dirs };
            assert(after_build_steps(torn, name, s4) == after_build_step(
                unlinked,
                name,
                s4.last(),
            ));
        } else {
            let s3 = s2.push(BuildStep::LinkRevisionDir);
            assert(setup =~= s3);
            assert(s3.drop_last() =~= s2);
            assert(after_build_steps(torn, name, s3) == after_build_step(made, name, s3.last()));
        }
    }
    assert(after_build_steps(fresh, name, rest) == Some(fresh)) by {
        let r2 = rest.drop_last();
        let r1 = r2.drop_last();
        assert(r1.drop_last() =~= Seq::<BuildStep>::empty());
        assert(after_build_steps(fresh, name, r1.drop_last()) == Some(fresh));
        assert(r1.last() == BuildStep::CopyReviewedContents);
        assert(after_build_steps(fresh, name, r1) == Some(fresh));
        assert(r2.last() == BuildStep::StripVcsMetadata);
        assert(after_build_steps(fresh, name, r2) == Some(fresh));
        assert(rest.last() == BuildStep::Build { offline, interactive: false });
    }
}

/// A cache that the user chose to keep is used, as long as nothing has
/// changed since the review: the head is known, the build directory bears its
/// revision, and the built package is still there.
pub proof fn kept_cache_is_used(
    cached: Set<Seq<char>>,
    pkgbase: Seq<char>,
    head: Seq<char>,
    build_rev: Option<Seq<char>>,
    merged: bool,
    has_files: bool,
)
    requires
        reusable(Some(head), build_rev, merged, has_files),
    ensures
        cache_hit(
            recorded(cached, pkgbase, ReviewOutcome::KeepCached),
            pkgbase,
            build_rev,
            Some(head),
            has_files,
        ),
        prepared(
            recorded(cached, pkgbase, ReviewOutcome::KeepCached),
            pkgbase,
            Some(head),
            build_rev,
            has_files,
            BuildDirProbe::Link { target_exists: true },
            false,
        ) is None,
{
}

} // verus!

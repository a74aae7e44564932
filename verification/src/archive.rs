//! Built archives: which files of a build directory are handed on for
//! installation, and how they are moved into the staging directory.

use crate::collections::name_set_entries;
use crate::collections::set_entries;
use crate::names::chars_of;
use crate::names::contains_name;
use crate::names::ends_with;
use crate::names::has_suffix;
use crate::names::owned;
use crate::names::strip_suffix;
use crate::names::views;
use indexmap::IndexSet;
use vstd::prelude::*;

verus! {

/// The files of a listing whose names end with the package-file suffix, in
/// the order of the listing.
pub open spec fn candidates(listing: Seq<Seq<char>>, pkgext: Seq<char>) -> Seq<Seq<char>> {
    listing.filter(|name: Seq<char>| ends_with(name, pkgext))
}

/// All names have at least `n` characters and end with the same `n`.
pub open spec fn shares_suffix(names: Seq<Seq<char>>, n: int) -> bool {
    forall|i: int|
        0 <= i < names.len() ==> n <= (#[trigger] names[i]).len() && names[i].skip(
            names[i].len() - n,
        ) == names[0].skip(names[0].len() - n)
}

/// Some name, without its last `n` characters, is in the whitelist.
pub open spec fn strips_to_member(names: Seq<Seq<char>>, whitelist: Seq<Seq<char>>, n: int) -> bool {
    exists|i: int|
        0 <= i < names.len() && n <= (#[trigger] names[i]).len() && whitelist.contains(
            strip_suffix(names[i], n),
        )
}

/// The last `n` characters are common to all names, and stripping them
/// leaves, for at least one name, an expected split-package name.
pub open spec fn is_common_suffix(names: Seq<Seq<char>>, whitelist: Seq<Seq<char>>, n: int) -> bool {
    0 <= n && shares_suffix(names, n) && strips_to_member(names, whitelist, n)
}

/// `n` is the largest length for which [`is_common_suffix`] holds.
pub open spec fn is_longest_common_suffix(
    names: Seq<Seq<char>>,
    whitelist: Seq<Seq<char>>,
    n: int,
) -> bool {
    is_common_suffix(names, whitelist, n) && forall|m: int| #[trigger]
        is_common_suffix(names, whitelist, m) ==> m <= n
}

/// The length of the longest suffix that all names share and whose removal
/// leaves an expected split-package name; 0 where there is no such suffix.
pub open spec fn common_suffix_len(names: Seq<Seq<char>>, whitelist: Seq<Seq<char>>) -> int {
    if exists|n: int| is_longest_common_suffix(names, whitelist, n) {
        choose|n: int| is_longest_common_suffix(names, whitelist, n)
    } else {
        0
    }
}

/// The archives that are handed on: the candidates whose name, without the
/// common suffix, is an expected split-package name.
pub open spec fn selected(
    listing: Seq<Seq<char>>,
    pkgext: Seq<char>,
    whitelist: Seq<Seq<char>>,
) -> Seq<Seq<char>> {
    let names = candidates(listing, pkgext);
    let n = common_suffix_len(names, whitelist);
    names.filter(|name: Seq<char>| n <= name.len() && whitelist.contains(strip_suffix(name, n)))
}

/// A shared suffix stays shared when it is shortened.
pub proof fn shorter_suffix_is_shared(names: Seq<Seq<char>>, n: int, k: int)
    requires
        shares_suffix(names, n),
        0 <= k <= n,
    ensures
        shares_suffix(names, k),
{
    assert forall|i: int| 0 <= i < names.len() implies k <= (#[trigger] names[i]).len()
        && names[i].skip(names[i].len() - k) == names[0].skip(names[0].len() - k) by {
        let a = names[i];
        let b = names[0];
        assert(a.skip(a.len() - n) == b.skip(b.len() - n));
        assert(a.skip(a.len() - k) =~= a.skip(a.len() - n).skip(n - k));
        assert(b.skip(b.len() - k) =~= b.skip(b.len() - n).skip(n - k));
    }
}

/// At most one length is the longest.
pub proof fn longest_common_suffix_is_unique(
    names: Seq<Seq<char>>,
    whitelist: Seq<Seq<char>>,
    n: int,
)
    requires
        is_longest_common_suffix(names, whitelist, n),
    ensures
        common_suffix_len(names, whitelist) == n,
{
    let m = common_suffix_len(names, whitelist);
    assert(is_longest_common_suffix(names, whitelist, m));
    assert(is_common_suffix(names, whitelist, m));
    assert(is_common_suffix(names, whitelist, n));
}

/// The files of `listing` that end with `pkgext`, in order.
pub fn archive_candidates(listing: &Vec<String>, pkgext: &str) -> (out: Vec<String>)
    ensures
        views(out@) == candidates(views(listing@), pkgext@),
{
    let mut out: Vec<String> = Vec::new();
    let ghost pred = |name: Seq<char>| ends_with(name, pkgext@);
    let mut i: usize = 0;
    assert(views(listing@).take(0) =~= Seq::<Seq<char>>::empty());
    assert(views(out@) =~= Seq::<Seq<char>>::empty());
    while i < listing.len()
        invariant
            i <= listing.len(),
            pred == |name: Seq<char>| ends_with(name, pkgext@),
            views(out@) == views(listing@).take(i as int).filter(pred),
        decreases listing.len() - i,
    {
        let ghost before = views(out@);
        proof {
            views(listing@).take(i as int).lemma_filter_push(views(listing@)[i as int], pred);
            assert(views(listing@).take(i + 1) =~= views(listing@).take(i as int).push(
                views(listing@)[i as int],
            ));
        }
        if has_suffix(listing[i].as_str(), pkgext) {
            out.push(owned(listing[i].as_str()));
            assert(views(out@) =~= before.push(views(listing@)[i as int]));
        }
        i += 1;
    }
    assert(views(listing@).take(listing.len() as int) =~= views(listing@));
    out
}

/// The characters of each name.
fn chars_of_each(names: &Vec<String>) -> (out: Vec<Vec<char>>)
    ensures
        out.len() == names.len(),
        forall|i: int| 0 <= i < names.len() ==> (#[trigger] out[i])@ == names[i]@,
{
    let mut out: Vec<Vec<char>> = Vec::new();
    let mut i: usize = 0;
    while i < names.len()
        invariant
            i <= names.len(),
            out.len() == i,
            forall|j: int| 0 <= j < i ==> (#[trigger] out[j])@ == names[j]@,
        decreases names.len() - i,
    {
        out.push(chars_of(names[i].as_str()));
        i += 1;
    }
    out
}

/// The length of the shortest of the texts.
fn shortest_len(chars: &Vec<Vec<char>>) -> (out: usize)
    requires
        chars.len() > 0,
    ensures
        forall|i: int| 0 <= i < chars.len() ==> out <= (#[trigger] chars[i]).len(),
        exists|i: int| 0 <= i < chars.len() && (#[trigger] chars[i]).len() == out,
{
    let mut out: usize = chars[0].len();
    let ghost mut at: int = 0;
    let mut i: usize = 1;
    while i < chars.len()
        invariant
            1 <= i <= chars.len(),
            0 <= at < i,
            chars[at].len() == out,
            forall|j: int| 0 <= j < i ==> out <= (#[trigger] chars[j]).len(),
        decreases chars.len() - i,
    {
        if chars[i].len() < out {
            out = chars[i].len();
            proof {
                at = i as int;
            }
        }
        i += 1;
    }
    out
}

/// Whether some name, without its last `n` characters, is in the whitelist.
fn stripped_is_member(
    names: &Vec<String>,
    chars: &Vec<Vec<char>>,
    whitelist: &Vec<String>,
    n: usize,
) -> (out: bool)
    requires
        chars.len() == names.len(),
        forall|i: int| 0 <= i < names.len() ==> (#[trigger] chars[i])@ == names[i]@,
        forall|i: int| 0 <= i < names.len() ==> n <= (#[trigger] chars[i]).len(),
    ensures
        out == strips_to_member(views(names@), views(whitelist@), n as int),
{
    let mut i: usize = 0;
    while i < names.len()
        invariant
            i <= names.len(),
            chars.len() == names.len(),
            forall|j: int| 0 <= j < names.len() ==> (#[trigger] chars[j])@ == names[j]@,
            forall|j: int| 0 <= j < names.len() ==> n <= (#[trigger] chars[j]).len(),
            forall|j: int|
                0 <= j < i ==> !views(whitelist@).contains(
                    strip_suffix(#[trigger] views(names@)[j], n as int),
                ),
        decreases names.len() - i,
    {
        assert(chars[i as int]@ == names[i as int]@);
        let name = names[i].as_str();
        let prefix = name.substring_char(0, chars[i].len() - n);
        assert(prefix@ =~= strip_suffix(views(names@)[i as int], n as int));
        if contains_name(whitelist, prefix) {
            assert(n <= views(names@)[i as int].len());
            return true;
        }
        i += 1;
    }
    false
}

/// Whether all texts hold the same character at `n` places before their
/// last.
fn same_char_before_last(chars: &Vec<Vec<char>>, n: usize) -> (out: bool)
    requires
        chars.len() > 0,
        forall|i: int| 0 <= i < chars.len() ==> n < (#[trigger] chars[i]).len(),
    ensures
        out == forall|i: int|
            0 <= i < chars.len() ==> (#[trigger] chars[i])@[chars[i].len() - 1 - n]
                == chars[0]@[chars[0].len() - 1 - n],
{
    let first = chars[0][chars[0].len() - 1 - n];
    let mut i: usize = 1;
    while i < chars.len()
        invariant
            1 <= i <= chars.len(),
            forall|j: int| 0 <= j < chars.len() ==> n < (#[trigger] chars[j]).len(),
            first == chars[0]@[chars[0].len() - 1 - n],
            forall|j: int|
                0 <= j < i ==> (#[trigger] chars[j])@[chars[j].len() - 1 - n] == first,
        decreases chars.len() - i,
    {
        assert(n < chars[i as int].len());
        if chars[i][chars[i].len() - 1 - n] != first {
            return false;
        }
        i += 1;
    }
    true
}

/// A shared suffix grows by one character exactly when all names agree on
/// the character in front of it.
proof fn suffix_grows(names: Seq<Seq<char>>, n: int)
    requires
        names.len() > 0,
        0 <= n,
        shares_suffix(names, n),
        forall|i: int| 0 <= i < names.len() ==> n < (#[trigger] names[i]).len(),
    ensures
        shares_suffix(names, n + 1) <==> forall|i: int|
            0 <= i < names.len() ==> (#[trigger] names[i])[names[i].len() - 1 - n]
                == names[0][names[0].len() - 1 - n],
{
    let b = names[0];
    if shares_suffix(names, n + 1) {
        assert forall|i: int| 0 <= i < names.len() implies (#[trigger] names[i])[names[i].len()
            - 1 - n] == b[b.len() - 1 - n] by {
            let a = names[i];
            assert(a.skip(a.len() - (n + 1)) == b.skip(b.len() - (n + 1)));
            assert(a.skip(a.len() - (n + 1))[0] == a[a.len() - 1 - n]);
            assert(b.skip(b.len() - (n + 1))[0] == b[b.len() - 1 - n]);
        }
    }
    if forall|i: int|
        0 <= i < names.len() ==> (#[trigger] names[i])[names[i].len() - 1 - n] == b[b.len() - 1
            - n] {
        assert forall|i: int| 0 <= i < names.len() implies n + 1 <= (#[trigger] names[i]).len()
            && names[i].skip(names[i].len() - (n + 1)) == b.skip(b.len() - (n + 1)) by {
            let a = names[i];
            assert(a.skip(a.len() - n) == b.skip(b.len() - n));
            assert(a.skip(a.len() - (n + 1)) =~= seq![a[a.len() - 1 - n]] + a.skip(a.len() - n));
            assert(b.skip(b.len() - (n + 1)) =~= seq![b[b.len() - 1 - n]] + b.skip(b.len() - n));
        }
    }
}

/// The length, in characters, of the longest suffix that all `names` share
/// and whose removal leaves, for at least one of them, a name of `whitelist`;
/// 0 where there is none, as for an empty list.
pub fn common_suffix_length(names: &Vec<String>, whitelist: &Vec<String>) -> (out: usize)
    ensures
        out == common_suffix_len(views(names@), views(whitelist@)),
{
    let ghost v = views(names@);
    let ghost w = views(whitelist@);
    if names.len() == 0 {
        assert(forall|n: int| !is_common_suffix(v, w, n));
        return 0;
    }
    let chars = chars_of_each(names);
    let min_len = shortest_len(&chars);
    let mut best: usize = 0;
    let mut found = false;
    let mut n: usize = 0;
    assert(shares_suffix(v, 0)) by {
        assert forall|i: int| 0 <= i < v.len() implies 0 <= (#[trigger] v[i]).len() && v[i].skip(
            v[i].len() - 0,
        ) == v[0].skip(v[0].len() - 0) by {
            assert(v[i].skip(v[i].len() as int) =~= v[0].skip(v[0].len() as int));
        }
    }
    loop
        invariant_except_break
            n <= min_len,
            shares_suffix(v, n as int),
            forall|m: int| 0 <= m < n && is_common_suffix(v, w, m) ==> found && m <= best,
        invariant
            v == views(names@),
            w == views(whitelist@),
            names.len() > 0,
            chars.len() == names.len(),
            forall|i: int| 0 <= i < names.len() ==> (#[trigger] chars[i])@ == names[i]@,
            forall|i: int| 0 <= i < chars.len() ==> min_len <= (#[trigger] chars[i]).len(),
            exists|i: int| 0 <= i < chars.len() && (#[trigger] chars[i]).len() == min_len,
            found ==> is_common_suffix(v, w, best as int),
            !found ==> best == 0,
        ensures
            forall|m: int| is_common_suffix(v, w, m) ==> found && m <= best,
        decreases min_len - n,
    {
        if stripped_is_member(names, &chars, whitelist, n) {
            best = n;
            found = true;
        }
        if n == min_len {
            proof {
                let k = choose|k: int| 0 <= k < chars.len() && (#[trigger] chars[k]).len() == min_len;
                assert(v[k].len() == min_len);
                assert forall|m: int| is_common_suffix(v, w, m) implies found && m <= best by {
                    if m > n {
                        assert(m <= v[k].len());
                    }
                }
            }
            break ;
        }
        let grows = same_char_before_last(&chars, n);
        proof {
            assert forall|i: int| 0 <= i < v.len() implies n < (#[trigger] v[i]).len() by {
                assert(chars[i]@ == names[i]@);
            }
            suffix_grows(v, n as int);
            assert(grows == shares_suffix(v, n + 1)) by {
                assert forall|i: int| 0 <= i < v.len() implies v[i] == (#[trigger] chars[i])@ by {}
                assert(v[0] == chars[0]@);
                if grows {
                    assert forall|i: int| 0 <= i < v.len() implies (#[trigger] v[i])[v[i].len() - 1
                        - n] == v[0][v[0].len() - 1 - n] by {
                        assert(v[i] == chars[i]@);
                    }
                } else {
                    if shares_suffix(v, n + 1) {
                        assert forall|i: int| 0 <= i < chars.len() implies (#[trigger] chars[i])@[chars[i].len()
                            - 1 - n] == chars[0]@[chars[0].len() - 1 - n] by {
                            assert(v[i] == chars[i]@);
                            assert(v[i][v[i].len() - 1 - n] == v[0][v[0].len() - 1 - n]);
                        }
                    }
                }
            }
        }
        if !grows {
            proof {
                assert forall|m: int| is_common_suffix(v, w, m) implies found && m <= best by {
                    if m > n {
                        shorter_suffix_is_shared(v, m, n + 1);
                    }
                }
            }
            break ;
        }
        n += 1;
    }
    proof {
        if found {
            longest_common_suffix_is_unique(v, w, best as int);
        } else {
            assert(forall|m: int| !is_common_suffix(v, w, m));
        }
    }
    best
}

/// The archives of `listing` that are handed on, in order: the files that
/// end with `pkgext` and whose name, without the suffix common to them all,
/// is in `whitelist`.
pub fn select_archives(listing: &Vec<String>, pkgext: &str, whitelist: &Vec<String>) -> (out: Vec<
    String,
>)
    ensures
        views(out@) == selected(views(listing@), pkgext@, views(whitelist@)),
{
    let names = archive_candidates(listing, pkgext);
    let n = common_suffix_length(&names, whitelist);
    let ghost pred = |name: Seq<char>|
        n <= name.len() && views(whitelist@).contains(strip_suffix(name, n as int));
    let mut out: Vec<String> = Vec::new();
    let mut i: usize = 0;
    assert(views(names@).take(0) =~= Seq::<Seq<char>>::empty());
    assert(views(out@) =~= Seq::<Seq<char>>::empty());
    while i < names.len()
        invariant
            i <= names.len(),
            pred == |name: Seq<char>|
                n <= name.len() && views(whitelist@).contains(strip_suffix(name, n as int)),
            views(out@) == views(names@).take(i as int).filter(pred),
        decreases names.len() - i,
    {
        let ghost before = views(out@);
        proof {
            views(names@).take(i as int).lemma_filter_push(views(names@)[i as int], pred);
            assert(views(names@).take(i + 1) =~= views(names@).take(i as int).push(
                views(names@)[i as int],
            ));
        }
        let name = names[i].as_str();
        let len = name.unicode_len();
        if n <= len {
            let prefix = name.substring_char(0, len - n);
            assert(prefix@ =~= strip_suffix(views(names@)[i as int], n as int));
            if contains_name(whitelist, prefix) {
                out.push(owned(name));
                assert(views(out@) =~= before.push(views(names@)[i as int]));
            }
        }
        i += 1;
    }
    assert(views(names@).take(names.len() as int) =~= views(names@));
    out
}

/// One step of staging the archives of a package. `file` counts into the
/// selected archives.
#[derive(Clone, Copy, Debug, PartialEq, Eq, Structural)]
pub enum StagingStep {
    /// Verify the contents of the archive where it was built. A failure is
    /// fatal for the run.
    Verify { file: usize },
    /// Remove the staging directory, if there is one.
    RemoveStagingDir,
    /// Create the staging directory.
    CreateStagingDir,
    /// Move the archive from the build directory into the staging directory.
    Move { file: usize },
}

/// The archives of one package that are handed on, and the steps that stage
/// them.
#[derive(Clone, Debug, PartialEq, Eq)]
pub struct StagingPlan {
    pub files: Vec<String>,
    pub steps: Vec<StagingStep>,
}

/// The steps that stage `n` archives: each is verified, then the staging
/// directory is replaced by an empty one, then each is moved into it.
pub open spec fn staging_steps(n: nat) -> Seq<StagingStep> {
    Seq::new(n, |i: int| StagingStep::Verify { file: i as usize }) + seq![
        StagingStep::RemoveStagingDir,
        StagingStep::CreateStagingDir,
    ] + Seq::new(n, |i: int| StagingStep::Move { file: i as usize })
}

/// The steps that stage `n` archives.
pub fn plan_staging(n: usize) -> (out: Vec<StagingStep>)
    ensures
        out@ == staging_steps(n as nat),
{
    let mut out: Vec<StagingStep> = Vec::new();
    let mut i: usize = 0;
    while i < n
        invariant
            i <= n,
            out@ == Seq::new(i as nat, |k: int| StagingStep::Verify { file: k as usize }),
        decreases n - i,
    {
        out.push(StagingStep::Verify { file: i });
        i += 1;
        assert(out@ =~= Seq::new(i as nat, |k: int| StagingStep::Verify { file: k as usize }));
    }
    out.push(StagingStep::RemoveStagingDir);
    out.push(StagingStep::CreateStagingDir);
    let ghost head = out@;
    let mut j: usize = 0;
    while j < n
        invariant
            j <= n,
            head == Seq::new(n as nat, |k: int| StagingStep::Verify { file: k as usize }) + seq![
                StagingStep::RemoveStagingDir,
                StagingStep::CreateStagingDir,
            ],
            out@ == head + Seq::new(j as nat, |k: int| StagingStep::Move { file: k as usize }),
        decreases n - j,
    {
        out.push(StagingStep::Move { file: j });
        j += 1;
        assert(out@ =~= head + Seq::new(j as nat, |k: int| StagingStep::Move { file: k as usize }));
    }
    out
}

/// Chooses the archives of a package that are handed on for installation and
/// lays out how they are staged.
///
/// `listing` holds the file names in the build directory of the package,
/// `pkgext` the package-file suffix, `archive_whitelist` the split-package
/// names expected in this run.
pub fn check_tars_and_move(
    listing: &Vec<String>,
    pkgext: &str,
    archive_whitelist: &IndexSet<String>,
) -> (out: StagingPlan)
    ensures
        views(out.files@) == selected(
            views(listing@),
            pkgext@,
            name_set_entries(*archive_whitelist),
        ),
        out.steps@ == staging_steps(out.files@.len()),
{
    let whitelist = set_entries(archive_whitelist);
    let files = select_archives(listing, pkgext, &whitelist);
    let steps = plan_staging(files.len());
    StagingPlan { files, steps }
}

/// The names of the files in the build directory and in the staging
/// directory of a package.
pub struct StagingDirs {
    pub build: Set<Seq<char>>,
    pub staged: Set<Seq<char>>,
}

/// The two directories after a step that succeeded.
pub open spec fn after_step(files: Seq<Seq<char>>, dirs: StagingDirs, step: StagingStep) -> StagingDirs {
    match step {
        StagingStep::Verify { file } => dirs,
        StagingStep::RemoveStagingDir => StagingDirs { build: dirs.build, staged: Set::empty() },
        StagingStep::CreateStagingDir => dirs,
        StagingStep::Move { file } => StagingDirs {
            build: dirs.build.remove(files[file as int]),
            staged: dirs.staged.insert(files[file as int]),
        },
    }
}

/// The two directories after a list of steps that all succeeded.
pub open spec fn after_steps(
    files: Seq<Seq<char>>,
    dirs: StagingDirs,
    steps: Seq<StagingStep>,
) -> StagingDirs
    decreases steps.len(),
{
    if steps.len() == 0 {
        dirs
    } else {
        after_step(files, after_steps(files, dirs, steps.drop_last()), steps.last())
    }
}

/// Verifying archives moves none of them.
proof fn verifying_changes_nothing(files: Seq<Seq<char>>, dirs: StagingDirs, k: nat)
    ensures
        after_steps(
            files,
            dirs,
            Seq::new(k, |i: int| StagingStep::Verify { file: i as usize }),
        ) == dirs,
    decreases k,
{
    let steps = Seq::new(k, |i: int| StagingStep::Verify { file: i as usize });
    if k > 0 {
        verifying_changes_nothing(files, dirs, (k - 1) as nat);
        assert(steps.drop_last() =~= Seq::new(
            (k - 1) as nat,
            |i: int| StagingStep::Verify { file: i as usize },
        ));
    }
}

/// After the staging directory is replaced and the first `k` archives are
/// moved, the staging directory holds those `k`, and the build directory has
/// lost them.
proof fn moving_fills_staging(files: Seq<Seq<char>>, dirs: StagingDirs, k: nat)
    requires
        k <= files.len() <= usize::MAX,
    ensures
        after_steps(
            files,
            dirs,
            Seq::new(files.len(), |i: int| StagingStep::Verify { file: i as usize }) + seq![
                StagingStep::RemoveStagingDir,
                StagingStep::CreateStagingDir,
            ] + Seq::new(k, |i: int| StagingStep::Move { file: i as usize }),
        ) == (StagingDirs {
            build: dirs.build.difference(files.take(k as int).to_set()),
            staged: files.take(k as int).to_set(),
        }),
    decreases k,
{
    let verify = Seq::new(files.len(), |i: int| StagingStep::Verify { file: i as usize });
    let replace = seq![StagingStep::RemoveStagingDir, StagingStep::CreateStagingDir];
    let steps = verify + replace + Seq::new(k, |i: int| StagingStep::Move { file: i as usize });
    if k == 0 {
        verifying_changes_nothing(files, dirs, files.len());
        let s1 = steps.drop_last();
        assert(steps =~= verify + replace);
        assert(steps.last() == StagingStep::CreateStagingDir);
        assert(s1 =~= verify.push(StagingStep::RemoveStagingDir));
        assert(s1.last() == StagingStep::RemoveStagingDir);
        assert(s1.drop_last() =~= verify);
        assert(after_steps(files, dirs, s1) == after_step(
            files,
            after_steps(files, dirs, s1.drop_last()),
            s1.last(),
        ));
        assert(after_steps(files, dirs, steps) == after_step(
            files,
            after_steps(files, dirs, s1),
            steps.last(),
        ));
        assert(files.take(0).to_set() =~= Set::<Seq<char>>::empty());
        assert(dirs.build.difference(Set::<Seq<char>>::empty()) =~= dirs.build);
    } else {
        moving_fills_staging(files, dirs, (k - 1) as nat);
        assert(steps.drop_last() =~= verify + replace + Seq::new(
            (k - 1) as nat,
            |i: int| StagingStep::Move { file: i as usize },
        ));
        assert(steps.last() == StagingStep::Move { file: (k - 1) as usize });
        assert(after_steps(files, dirs, steps) == after_step(
            files,
            after_steps(files, dirs, steps.drop_last()),
            steps.last(),
        ));
        let earlier = files.take(k - 1);
        let now = files.take(k as int);
        assert(now =~= earlier.push(files[k - 1]));
        assert(now.to_set() =~= earlier.to_set().insert(files[k - 1])) by {
            assert forall|x: Seq<char>| now.to_set().contains(x) implies earlier.to_set().insert(
                files[k - 1],
            ).contains(x) by {
                let j = choose|j: int| 0 <= j < now.len() && now[j] == x;
                if j < k - 1 {
                    assert(earlier[j] == x);
                }
            }
            assert forall|x: Seq<char>|
                earlier.to_set().insert(files[k - 1]).contains(x) implies now.to_set().contains(
                x,
            ) by {
                if x == files[k - 1] {
                    assert(now[k - 1] == x);
                } else {
                    let j = choose|j: int| 0 <= j < earlier.len() && earlier[j] == x;
                    assert(now[j] == x);
                }
            }
        }
        assert(dirs.build.difference(earlier.to_set()).remove(files[k - 1])
            =~= dirs.build.difference(now.to_set()));
    }
}

/// Once the archives of a package are staged, the staging directory holds
/// exactly the selected archives, whatever it held before, and the build
/// directory holds none of them any more.
pub proof fn staging_holds_exactly_the_selected(files: Seq<Seq<char>>, dirs: StagingDirs)
    requires
        files.len() <= usize::MAX,
    ensures
        after_steps(files, dirs, staging_steps(files.len())) == (StagingDirs {
            build: dirs.build.difference(files.to_set()),
            staged: files.to_set(),
        }),
{
    moving_fills_staging(files, dirs, files.len());
    assert(files.take(files.len() as int) =~= files);
}

/// No archive is moved before every archive has been verified and the
/// staging directory has been replaced.
pub proof fn verification_precedes_every_move(n: nat, a: int, b: int)
    requires
        0 <= a < staging_steps(n).len(),
        0 <= b < staging_steps(n).len(),
        staging_steps(n)[a] is Move,
        !(staging_steps(n)[b] is Move),
    ensures
        b < a,
{
}

/// Every selected archive ends with the package-file suffix, is in the
/// listing, and bears an expected name once the common suffix is stripped.
pub proof fn selected_are_whitelisted(
    listing: Seq<Seq<char>>,
    pkgext: Seq<char>,
    whitelist: Seq<Seq<char>>,
    i: int,
)
    requires
        0 <= i < selected(listing, pkgext, whitelist).len(),
    ensures
        ({
            let name = selected(listing, pkgext, whitelist)[i];
            let n = common_suffix_len(candidates(listing, pkgext), whitelist);
            &&& listing.contains(name)
            &&& ends_with(name, pkgext)
            &&& n <= name.len()
            &&& whitelist.contains(strip_suffix(name, n))
        }),
{
    let names = candidates(listing, pkgext);
    let n = common_suffix_len(names, whitelist);
    let keep = |name: Seq<char>| n <= name.len() && whitelist.contains(strip_suffix(name, n));
    let ext = |name: Seq<char>| ends_with(name, pkgext);
    let name = names.filter(keep)[i];
    names.lemma_filter_pred(keep, i);
    assert(names.filter(keep).contains(name));
    names.lemma_filter_contains_rev(keep, name);
    let j = choose|j: int| 0 <= j < names.len() && names[j] == name;
    listing.lemma_filter_pred(ext, j);
    assert(listing.filter(ext).contains(name));
    listing.lemma_filter_contains_rev(ext, name);
}

} // verus!

use rua_install::cache::build_dir_has_pkg_files;
use rua_install::cache::create_build_dir;
use rua_install::cache::ensure_build_dir_removed;
use rua_install::cache::prepare_build;
use rua_install::cache::revision_dir_name;
use rua_install::cache::short_revision;
use rua_install::cache::use_cache;
use rua_install::cache::BuildDirProbe;
use rua_install::cache::BuildDirectoryRecord;
use rua_install::cache::BuildStep;
use rua_install::cache::CachedSet;
use rua_install::review::ReviewOutcome;

const EXT: &str = ".pkg.tar.zst";

fn names(list: &[&str]) -> Vec<String> {
    list.iter().map(|s| s.to_string()).collect()
}

fn tagged(rev: &str) -> BuildDirectoryRecord {
    BuildDirectoryRecord::Tagged { revision: rev.to_string() }
}

#[test]
fn new_cached_set_is_empty() {
    let set = CachedSet::new();
    assert_eq!(set.len(), 0);
    assert!(!set.contains("foo"));
    assert!(!set.contains(""));
}

#[test]
fn cached_set_holds_each_name_once() {
    let mut set = CachedSet::new();
    assert!(set.insert("foo"));
    assert!(set.insert("bar"));
    assert!(!set.insert("foo"));
    assert_eq!(set.len(), 2);
    assert!(set.contains("foo"));
    assert!(set.contains("bar"));
    assert!(!set.contains("fo"));
    assert!(!set.contains("foo "));
}

#[test]
fn only_a_kept_cache_is_recorded() {
    let mut set = CachedSet::new();
    set.record("foo", ReviewOutcome::Approved);
    assert!(!set.contains("foo"));
    assert_eq!(set.len(), 0);
    set.record("bar", ReviewOutcome::KeepCached);
    assert!(set.contains("bar"));
    assert!(!set.contains("foo"));
    assert_eq!(set.len(), 1);
}

#[test]
fn short_revision_is_the_head_or_the_fallback() {
    assert_eq!(short_revision(&Some("abc1234".to_string())), "abc1234");
    assert_eq!(short_revision(&None), "head");
    assert_eq!(short_revision(&Some(String::new())), "");
}

#[test]
fn revision_directory_is_named_after_package_and_revision() {
    assert_eq!(revision_dir_name("foo", "abc1234"), "foo-abc1234");
    assert_eq!(revision_dir_name("foo-git", "head"), "foo-git-head");
    assert_eq!(revision_dir_name("", ""), "-");
}

#[test]
fn record_is_read_off_the_link_target() {
    assert_eq!(BuildDirectoryRecord::read("foo", &None), BuildDirectoryRecord::Absent);
    assert_eq!(BuildDirectoryRecord::read("foo", &Some("foo-abc1234".to_string())), tagged("abc1234"));
    assert_eq!(BuildDirectoryRecord::read("foo", &Some("foo-".to_string())), tagged(""));
    assert_eq!(BuildDirectoryRecord::read("foo", &Some("foo".to_string())), BuildDirectoryRecord::Absent);
    assert_eq!(BuildDirectoryRecord::read("foo", &Some("bar-abc1234".to_string())), BuildDirectoryRecord::Absent);
    assert_eq!(BuildDirectoryRecord::read("foo", &Some("fooabc1234".to_string())), BuildDirectoryRecord::Absent);
    assert_eq!(BuildDirectoryRecord::read("foo", &Some("fo".to_string())), BuildDirectoryRecord::Absent);
    assert_eq!(BuildDirectoryRecord::read("foo-git", &Some("foo-git-r12.abc".to_string())), tagged("r12.abc"));
    assert_eq!(BuildDirectoryRecord::read("foo", &Some("foo-git-r12".to_string())), tagged("git-r12"));
}

#[test]
fn record_round_trips_through_the_directory_name() {
    for (pkgbase, rev) in [("foo", "abc1234"), ("foo-git", "head"), ("b", ""), ("düß", "ré-v")] {
        let name = revision_dir_name(pkgbase, rev);
        let record = BuildDirectoryRecord::read(pkgbase, &Some(name));
        assert_eq!(record, tagged(rev));
        assert_eq!(record.revision(), Some(rev.to_string()));
    }
    assert_eq!(BuildDirectoryRecord::Absent.revision(), None);
}

#[test]
fn built_package_is_found_by_its_suffix() {
    assert!(build_dir_has_pkg_files(&Some(names(&["PKGBUILD", "foo-1.0-x86_64.pkg.tar.zst"])), EXT));
    assert!(build_dir_has_pkg_files(&Some(names(&[".pkg.tar.zst"])), EXT));
    assert!(!build_dir_has_pkg_files(&Some(names(&["PKGBUILD", "foo-1.0-x86_64.pkg.tar.xz", "pkg.tar.zst"])), EXT));
    assert!(!build_dir_has_pkg_files(&Some(names(&["foo.pkg.tar.zst.sig"])), EXT));
    assert!(!build_dir_has_pkg_files(&Some(Vec::new()), EXT));
    assert!(!build_dir_has_pkg_files(&None, EXT));
    assert!(build_dir_has_pkg_files(&Some(names(&["anything"])), ""));
}

#[test]
fn cache_is_used_only_when_all_three_conditions_hold() {
    let mut cached = CachedSet::new();
    cached.insert("foo");
    let built = Some(names(&["foo-1.0-x86_64.pkg.tar.zst"]));
    assert!(use_cache(&cached, "foo", &tagged("abc1234"), &Some("abc1234".to_string()), &built, EXT));
    // not in the cached set
    assert!(!use_cache(&cached, "bar", &tagged("abc1234"), &Some("abc1234".to_string()), &built, EXT));
    assert!(!use_cache(&CachedSet::new(), "foo", &tagged("abc1234"), &Some("abc1234".to_string()), &built, EXT));
    // another revision, or no build directory at all
    assert!(!use_cache(&cached, "foo", &tagged("abc1234"), &Some("abc1235".to_string()), &built, EXT));
    assert!(!use_cache(&cached, "foo", &BuildDirectoryRecord::Absent, &Some("abc1234".to_string()), &built, EXT));
    // no built package left
    assert!(!use_cache(&cached, "foo", &tagged("abc1234"), &Some("abc1234".to_string()), &Some(names(&["PKGBUILD"])), EXT));
    assert!(!use_cache(&cached, "foo", &tagged("abc1234"), &Some("abc1234".to_string()), &Some(Vec::new()), EXT));
    assert!(!use_cache(&cached, "foo", &tagged("abc1234"), &Some("abc1234".to_string()), &None, EXT));
}

#[test]
fn unknown_head_never_uses_the_cache() {
    let mut cached = CachedSet::new();
    cached.insert("foo");
    let built = Some(names(&["foo-1.0-x86_64.pkg.tar.zst"]));
    assert!(!use_cache(&cached, "foo", &tagged("head"), &None, &built, EXT));
    assert!(!use_cache(&cached, "foo", &tagged("abc1234"), &None, &built, EXT));
    assert!(!use_cache(&cached, "foo", &BuildDirectoryRecord::Absent, &None, &built, EXT));
    // a head that is known and happens to read like the fallback token is a revision like any other
    assert!(use_cache(&cached, "foo", &tagged("head"), &Some("head".to_string()), &built, EXT));
}

#[test]
fn build_made_under_the_fallback_token_is_stale_for_good() {
    let mut cached = CachedSet::new();
    cached.record("foo", ReviewOutcome::KeepCached);
    let plan = prepare_build(
        &cached,
        "foo",
        &None,
        &BuildDirectoryRecord::read("foo", &Some("foo-head".to_string())),
        &Some(names(&["PKGBUILD", "foo-1.0-x86_64.pkg.tar.zst"])),
        EXT,
        BuildDirProbe::Link { target_exists: true },
        false,
    )
    .expect("an unknown revision is built anew");
    assert_eq!(plan.revision_dir, "foo-head");
    assert_eq!(
        plan.steps,
        vec![
            BuildStep::RemoveLinkTarget,
            BuildStep::RemoveBuildLink,
            BuildStep::RemoveRevisionDir,
            BuildStep::CreateRevisionDir,
            BuildStep::LinkRevisionDir,
            BuildStep::CopyReviewedContents,
            BuildStep::StripVcsMetadata,
            BuildStep::Build { offline: false, interactive: false },
        ]
    );
}

#[test]
fn declined_cache_forces_a_rebuild() {
    let mut cached = CachedSet::new();
    cached.record("foo", ReviewOutcome::Approved);
    let built = Some(names(&["foo-1.0-x86_64.pkg.tar.zst"]));
    assert!(!use_cache(&cached, "foo", &tagged("abc1234"), &Some("abc1234".to_string()), &built, EXT));
    let plan = prepare_build(
        &cached,
        "foo",
        &Some("abc1234".to_string()),
        &tagged("abc1234"),
        &built,
        EXT,
        BuildDirProbe::Link { target_exists: true },
        false,
    );
    assert!(plan.is_some());
}

#[test]
fn teardown_of_a_live_link_removes_target_then_link() {
    assert_eq!(
        ensure_build_dir_removed(BuildDirProbe::Link { target_exists: true }),
        vec![BuildStep::RemoveLinkTarget, BuildStep::RemoveBuildLink]
    );
}

#[test]
fn teardown_of_a_plain_directory_removes_it() {
    assert_eq!(ensure_build_dir_removed(BuildDirProbe::Directory), vec![BuildStep::RemoveBuildDirectory]);
}

#[test]
fn teardown_of_nothing_does_nothing() {
    assert_eq!(ensure_build_dir_removed(BuildDirProbe::Absent), Vec::<BuildStep>::new());
    assert_eq!(ensure_build_dir_removed(BuildDirProbe::Other), Vec::<BuildStep>::new());
}

#[test]
fn dangling_link_is_torn_down_by_doing_nothing_and_replaced_on_setup() {
    let dangling = BuildDirProbe::Link { target_exists: false };
    assert_eq!(ensure_build_dir_removed(dangling), Vec::<BuildStep>::new());
    let plan = create_build_dir("foo", "abc1234", dangling);
    assert_eq!(plan.revision_dir, "foo-abc1234");
    assert_eq!(
        plan.steps,
        vec![
            BuildStep::RemoveRevisionDir,
            BuildStep::CreateRevisionDir,
            BuildStep::RemoveBuildLink,
            BuildStep::LinkRevisionDir,
        ]
    );
}

#[test]
fn fresh_build_directory_where_nothing_was() {
    let plan = create_build_dir("foo", "abc1234", BuildDirProbe::Absent);
    assert_eq!(plan.revision_dir, "foo-abc1234");
    assert_eq!(
        plan.steps,
        vec![BuildStep::RemoveRevisionDir, BuildStep::CreateRevisionDir, BuildStep::LinkRevisionDir]
    );
}

#[test]
fn fresh_build_directory_replaces_a_live_one() {
    let plan = create_build_dir("foo", "head", BuildDirProbe::Link { target_exists: true });
    assert_eq!(plan.revision_dir, "foo-head");
    assert_eq!(
        plan.steps,
        vec![
            BuildStep::RemoveLinkTarget,
            BuildStep::RemoveBuildLink,
            BuildStep::RemoveRevisionDir,
            BuildStep::CreateRevisionDir,
            BuildStep::LinkRevisionDir,
        ]
    );
}

#[test]
fn fresh_build_directory_replaces_a_plain_directory() {
    let plan = create_build_dir("foo", "abc1234", BuildDirProbe::Directory);
    assert_eq!(
        plan.steps,
        vec![
            BuildStep::RemoveBuildDirectory,
            BuildStep::RemoveRevisionDir,
            BuildStep::CreateRevisionDir,
            BuildStep::LinkRevisionDir,
        ]
    );
}

#[test]
fn first_build_runs_the_full_build_path() {
    let plan = prepare_build(
        &CachedSet::new(),
        "foo",
        &Some("abc1234".to_string()),
        &BuildDirectoryRecord::Absent,
        &None,
        EXT,
        BuildDirProbe::Absent,
        true,
    )
    .expect("a first build is never a cache hit");
    assert_eq!(plan.revision_dir, "foo-abc1234");
    assert_eq!(
        plan.steps,
        vec![
            BuildStep::RemoveRevisionDir,
            BuildStep::CreateRevisionDir,
            BuildStep::LinkRevisionDir,
            BuildStep::CopyReviewedContents,
            BuildStep::StripVcsMetadata,
            BuildStep::Build { offline: true, interactive: false },
        ]
    );
}

#[test]
fn kept_cache_skips_the_build() {
    let mut cached = CachedSet::new();
    cached.record("foo", ReviewOutcome::KeepCached);
    let plan = prepare_build(
        &cached,
        "foo",
        &Some("abc1234".to_string()),
        &BuildDirectoryRecord::read("foo", &Some("foo-abc1234".to_string())),
        &Some(names(&["PKGBUILD", "foo-1.0-x86_64.pkg.tar.zst"])),
        EXT,
        BuildDirProbe::Link { target_exists: true },
        false,
    );
    assert_eq!(plan, None);
}

#[test]
fn unknown_head_builds_under_the_fallback_name() {
    let plan = prepare_build(
        &CachedSet::new(),
        "foo",
        &None,
        &tagged("head"),
        &Some(names(&["foo-1.0-x86_64.pkg.tar.zst"])),
        EXT,
        BuildDirProbe::Link { target_exists: true },
        false,
    )
    .expect("a package outside the cached set is built");
    assert_eq!(plan.revision_dir, "foo-head");
    assert_eq!(plan.steps.last(), Some(&BuildStep::Build { offline: false, interactive: false }));
}

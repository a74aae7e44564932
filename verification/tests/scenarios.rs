use indexmap::IndexMap;
use indexmap::IndexSet;
use rua_install::archive::check_tars_and_move;
use rua_install::archive::StagingStep;
use rua_install::cache::create_build_dir;
use rua_install::cache::ensure_build_dir_removed;
use rua_install::cache::prepare_build;
use rua_install::cache::BuildDirProbe;
use rua_install::cache::BuildDirectoryRecord;
use rua_install::cache::BuildStep;
use rua_install::cache::CachedSet;
use rua_install::install::files_to_install;
use rua_install::install::install;
use rua_install::install::InstallSummary;
use rua_install::install::mark_as_dependency;
use rua_install::review::review_repo;
use rua_install::review::review_start;
use rua_install::review::ReviewAction;
use rua_install::review::ReviewEvent;
use rua_install::review::ReviewOutcome;
use rua_install::steps::InstallStep;

const EXT: &str = ".pkg.tar.zst";

fn names(list: &[&str]) -> Vec<String> {
    list.iter().map(|s| s.to_string()).collect()
}

fn depth_map(list: &[(&str, i32)]) -> IndexMap<String, i32> {
    let mut map = IndexMap::new();
    for (name, depth) in list {
        map.insert(name.to_string(), *depth);
    }
    map
}

fn base_map(list: &[(&str, &str)]) -> IndexMap<String, String> {
    let mut map = IndexMap::new();
    for (split, base) in list {
        map.insert(split.to_string(), base.to_string());
    }
    map
}

/// Feeds the events to a review and returns the actions asked for and the
/// outcome, if the review ended.
fn review(events: Vec<ReviewEvent>) -> (Vec<ReviewAction>, Option<ReviewOutcome>) {
    let (mut state, first) = review_start();
    let mut actions = vec![first];
    for event in &events {
        let (next, action) = review_repo(state, event).expect("the event is awaited");
        state = next;
        actions.push(action);
    }
    let outcome = match actions.last() {
        Some(ReviewAction::Finish { outcome }) => Some(*outcome),
        _ => None,
    };
    (actions, outcome)
}

fn approve_fresh_clone(head: &str) -> Vec<ReviewEvent> {
    vec![
        ReviewEvent::DirectoryListed { empty: true },
        ReviewEvent::Completed,
        ReviewEvent::Assessed {
            head: Some(head.to_string()),
            build_rev: None,
            merged: true,
            has_built_package: false,
        },
        ReviewEvent::MergeStatus { merged: true, identical: true },
        ReviewEvent::Input { line: "o".to_string() },
    ]
}

#[test]
fn scenario_single_target_is_cloned_built_and_installed_explicitly() {
    let plan = install(&base_map(&[("foo", "foo")]), &IndexSet::new(), &depth_map(&[("foo", 0)]), false, false)
        .expect("foo resolves");
    assert_eq!(plan.summary, InstallSummary { pacman: Vec::new(), aur: names(&["foo"]) });
    assert_eq!(plan.steps.first(), Some(&InstallStep::ConfirmSummary));
    assert_eq!(plan.review_order, names(&["foo"]));

    let (actions, outcome) = review(approve_fresh_clone("abc1234"));
    assert_eq!(actions[1], ReviewAction::CloneRecipe);
    assert_eq!(outcome, Some(ReviewOutcome::Approved));
    let mut cached = CachedSet::new();
    cached.record("foo", ReviewOutcome::Approved);

    assert_eq!(plan.groups.len(), 1);
    let group = &plan.groups[0];
    assert_eq!(group.depth, 0);
    assert_eq!(group.packages.len(), 1);
    let build = prepare_build(
        &cached,
        &group.packages[0].pkgbase,
        &Some("abc1234".to_string()),
        &BuildDirectoryRecord::read("foo", &None),
        &None,
        EXT,
        BuildDirProbe::Absent,
        false,
    )
    .expect("nothing was built before");
    assert_eq!(build.revision_dir, "foo-abc1234");
    assert_eq!(build.steps.last(), Some(&BuildStep::Build { offline: false, interactive: false }));

    let listing = names(&["PKGBUILD", "foo-1.0-x86_64.pkg.tar.zst"]);
    let staging = check_tars_and_move(&listing, EXT, &plan.archive_whitelist);
    assert_eq!(staging.files, names(&["foo-1.0-x86_64.pkg.tar.zst"]));

    let batch = files_to_install(&vec![(group.packages[0].split.clone(), staging.files.clone())]);
    assert_eq!(batch, vec![("foo".to_string(), "foo-1.0-x86_64.pkg.tar.zst".to_string())]);
    assert!(!mark_as_dependency(false, group.depth));
}

#[test]
fn scenario_dependency_is_built_and_installed_before_its_dependent() {
    let plan = install(
        &base_map(&[("foo", "foo"), ("bar", "bar")]),
        &IndexSet::new(),
        &depth_map(&[("foo", 0), ("bar", 1)]),
        false,
        false,
    )
    .expect("both resolve");
    let bar_installed = plan.steps.iter().position(|s| *s == InstallStep::InstallGroup { group: 0, asdeps: true });
    let foo_built = plan.steps.iter().position(|s| matches!(s, InstallStep::Build { group: 1, .. }));
    assert!(bar_installed.is_some() && foo_built.is_some() && bar_installed < foo_built);
    assert!(plan.steps.contains(&InstallStep::InstallGroup { group: 1, asdeps: false }));
    let order: Vec<(String, i32, bool)> = plan
        .groups
        .iter()
        .flat_map(|g| g.packages.iter().map(|p| (p.pkgbase.clone(), g.depth, mark_as_dependency(false, g.depth))))
        .collect();
    assert_eq!(order, vec![("bar".to_string(), 1, true), ("foo".to_string(), 0, false)]);

    let bar = check_tars_and_move(&names(&["bar-2.1-1-any.pkg.tar.zst"]), EXT, &plan.archive_whitelist);
    assert_eq!(bar.files, names(&["bar-2.1-1-any.pkg.tar.zst"]));
    let foo = check_tars_and_move(&names(&["foo-1.0-1-x86_64.pkg.tar.zst"]), EXT, &plan.archive_whitelist);
    assert_eq!(foo.files, names(&["foo-1.0-1-x86_64.pkg.tar.zst"]));
}

#[test]
fn scenario_second_run_keeps_the_cached_build() {
    let (actions, outcome) = review(vec![
        ReviewEvent::DirectoryListed { empty: false },
        ReviewEvent::Completed,
        ReviewEvent::Assessed {
            head: Some("abc1234".to_string()),
            build_rev: BuildDirectoryRecord::read("foo", &Some("foo-abc1234".to_string())).revision(),
            merged: true,
            has_built_package: true,
        },
        ReviewEvent::Input { line: "c".to_string() },
    ]);
    assert_eq!(
        actions,
        vec![
            ReviewAction::ListDirectory,
            ReviewAction::FetchUpdates,
            ReviewAction::AssessCache,
            ReviewAction::PromptCache,
            ReviewAction::Finish { outcome: ReviewOutcome::KeepCached },
        ]
    );
    let outcome = outcome.expect("the review ended");
    let mut cached = CachedSet::new();
    cached.record("foo", outcome);

    let listing = Some(names(&["PKGBUILD", "foo-1.0-x86_64.pkg.tar.zst"]));
    let build = prepare_build(
        &cached,
        "foo",
        &Some("abc1234".to_string()),
        &BuildDirectoryRecord::read("foo", &Some("foo-abc1234".to_string())),
        &listing,
        EXT,
        BuildDirProbe::Link { target_exists: true },
        false,
    );
    assert_eq!(build, None);

    let mut whitelist = IndexSet::new();
    whitelist.insert("foo".to_string());
    let staging = check_tars_and_move(&listing.expect("listed above"), EXT, &whitelist);
    assert_eq!(staging.files, names(&["foo-1.0-x86_64.pkg.tar.zst"]));
    assert_eq!(staging.steps.last(), Some(&StagingStep::Move { file: 0 }));
}

#[test]
fn scenario_second_run_at_a_new_revision_rebuilds() {
    let mut cached = CachedSet::new();
    cached.record("foo", ReviewOutcome::KeepCached);
    let build = prepare_build(
        &cached,
        "foo",
        &Some("def5678".to_string()),
        &BuildDirectoryRecord::read("foo", &Some("foo-abc1234".to_string())),
        &Some(names(&["foo-1.0-x86_64.pkg.tar.zst"])),
        EXT,
        BuildDirProbe::Link { target_exists: true },
        false,
    )
    .expect("the revision changed");
    assert_eq!(build.revision_dir, "foo-def5678");
    assert_eq!(build.steps[0], BuildStep::RemoveLinkTarget);
}

#[test]
fn scenario_build_directory_deleted_between_runs() {
    let dangling = BuildDirProbe::Link { target_exists: false };
    assert_eq!(ensure_build_dir_removed(dangling), Vec::<BuildStep>::new());
    let fresh = create_build_dir("foo", "abc1234", dangling);
    assert_eq!(fresh.revision_dir, "foo-abc1234");
    assert_eq!(fresh.steps.first(), Some(&BuildStep::RemoveRevisionDir));
    assert!(fresh.steps.contains(&BuildStep::CreateRevisionDir));
    assert_eq!(fresh.steps.last(), Some(&BuildStep::LinkRevisionDir));
    let removed = fresh.steps.iter().position(|s| *s == BuildStep::RemoveBuildLink);
    let linked = fresh.steps.iter().position(|s| *s == BuildStep::LinkRevisionDir);
    assert!(removed.is_some() && removed < linked);
    assert!(!fresh.steps.contains(&BuildStep::RemoveLinkTarget));
}

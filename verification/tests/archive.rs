use indexmap::IndexSet;
use rua_install::archive::archive_candidates;
use rua_install::archive::check_tars_and_move;
use rua_install::archive::common_suffix_length;
use rua_install::archive::plan_staging;
use rua_install::archive::select_archives;
use rua_install::archive::StagingStep;

const EXT: &str = ".pkg.tar.zst";

fn names(list: &[&str]) -> Vec<String> {
    list.iter().map(|s| s.to_string()).collect()
}

fn name_set(list: &[&str]) -> IndexSet<String> {
    let mut set = IndexSet::new();
    for name in list {
        set.insert(name.to_string());
    }
    set
}

#[test]
fn candidates_end_with_the_suffix() {
    let listing = names(&["PKGBUILD", "foo-1.0-x86_64.pkg.tar.zst", "src", "foo.pkg.tar.zst.sig", "bar-2-any.pkg.tar.zst"]);
    assert_eq!(
        archive_candidates(&listing, EXT),
        names(&["foo-1.0-x86_64.pkg.tar.zst", "bar-2-any.pkg.tar.zst"])
    );
    assert_eq!(archive_candidates(&Vec::new(), EXT), Vec::<String>::new());
    assert_eq!(archive_candidates(&names(&["a", "b"]), ""), names(&["a", "b"]));
}

#[test]
fn common_suffix_of_a_single_archive() {
    let files = names(&["foo-1.0-x86_64.pkg.tar.zst"]);
    assert_eq!(common_suffix_length(&files, &names(&["foo"])), 23);
}

#[test]
fn common_suffix_of_split_packages() {
    let files = names(&["foo-1.0-1-x86_64.pkg.tar.zst", "foo-docs-1.0-1-x86_64.pkg.tar.zst"]);
    assert_eq!(common_suffix_length(&files, &names(&["foo", "foo-docs"])), 25);
    assert_eq!(common_suffix_length(&files, &names(&["foo"])), 25);
    assert_eq!(common_suffix_length(&files, &names(&["foo-docs"])), 25);
}

#[test]
fn common_suffix_is_the_longest_that_leaves_a_whitelisted_name() {
    // "1-any" and "-1-any" are both shared; only the shorter leaves a name.
    let files = names(&["a-1-any", "b-1-any"]);
    assert_eq!(common_suffix_length(&files, &names(&["a-"])), 5);
    assert_eq!(common_suffix_length(&files, &names(&["a"])), 6);
    assert_eq!(common_suffix_length(&files, &names(&["a", "b-"])), 6);
    assert_eq!(common_suffix_length(&files, &names(&["a-1-any"])), 0);
}

#[test]
fn common_suffix_is_zero_without_a_match() {
    let files = names(&["foo-1.0-x86_64.pkg.tar.zst"]);
    assert_eq!(common_suffix_length(&files, &names(&["bar"])), 0);
    assert_eq!(common_suffix_length(&files, &Vec::new()), 0);
    assert_eq!(common_suffix_length(&Vec::new(), &names(&["foo"])), 0);
    // nothing in common beyond the extension, and no name ends there
    let files = names(&["foo-1.pkg.tar.zst", "bar-2.pkg.tar.zst"]);
    assert_eq!(common_suffix_length(&files, &names(&["foo", "bar"])), 0);
}

#[test]
fn common_suffix_stops_where_names_differ() {
    let files = names(&["foo-1.pkg.tar.zst", "bar-2.pkg.tar.zst"]);
    assert_eq!(common_suffix_length(&files, &names(&["foo-1"])), 12);
    // the whole of the shortest name may be shared
    let files = names(&["xab", "ab"]);
    assert_eq!(common_suffix_length(&files, &names(&[""])), 2);
    assert_eq!(common_suffix_length(&files, &names(&["x"])), 2);
    assert_eq!(common_suffix_length(&files, &names(&["xa"])), 1);
}

#[test]
fn common_suffix_counts_characters() {
    let files = names(&["é-ü", "ö-ü"]);
    assert_eq!(common_suffix_length(&files, &names(&["é"])), 2);
}

#[test]
fn selected_archives_bear_whitelisted_names() {
    let listing = names(&[
        "PKGBUILD",
        "foo-1.0-1-x86_64.pkg.tar.zst",
        "foo-debug-1.0-1-x86_64.pkg.tar.zst",
        "foo-docs-1.0-1-x86_64.pkg.tar.zst",
        "foo-1.0-1-x86_64.pkg.tar.zst.sig",
    ]);
    assert_eq!(
        select_archives(&listing, EXT, &names(&["foo", "foo-docs", "bar"])),
        names(&["foo-1.0-1-x86_64.pkg.tar.zst", "foo-docs-1.0-1-x86_64.pkg.tar.zst"])
    );
    assert_eq!(select_archives(&listing, EXT, &names(&["bar"])), Vec::<String>::new());
    assert_eq!(select_archives(&Vec::new(), EXT, &names(&["foo"])), Vec::<String>::new());
}

#[test]
fn single_output_is_checked_and_moved() {
    let listing = names(&["PKGBUILD", "src", "pkg", "foo-1.0-x86_64.pkg.tar.zst"]);
    let plan = check_tars_and_move(&listing, EXT, &name_set(&["foo"]));
    assert_eq!(plan.files, names(&["foo-1.0-x86_64.pkg.tar.zst"]));
    assert_eq!(
        plan.steps,
        vec![
            StagingStep::Verify { file: 0 },
            StagingStep::RemoveStagingDir,
            StagingStep::CreateStagingDir,
            StagingStep::Move { file: 0 },
        ]
    );
}

#[test]
fn whitelist_order_does_not_matter() {
    let listing = names(&["b-1-any.pkg.tar.zst", "a-1-any.pkg.tar.zst", "c-1-any.pkg.tar.zst"]);
    let plan = check_tars_and_move(&listing, EXT, &name_set(&["a", "b"]));
    assert_eq!(plan.files, names(&["b-1-any.pkg.tar.zst", "a-1-any.pkg.tar.zst"]));
    let plan = check_tars_and_move(&listing, EXT, &name_set(&["b", "a"]));
    assert_eq!(plan.files, names(&["b-1-any.pkg.tar.zst", "a-1-any.pkg.tar.zst"]));
}

#[test]
fn nothing_to_stage_still_replaces_the_staging_directory() {
    let plan = check_tars_and_move(&names(&["PKGBUILD"]), EXT, &name_set(&["foo"]));
    assert_eq!(plan.files, Vec::<String>::new());
    assert_eq!(plan.steps, vec![StagingStep::RemoveStagingDir, StagingStep::CreateStagingDir]);
}

#[test]
fn every_archive_is_verified_before_any_is_moved() {
    assert_eq!(
        plan_staging(3),
        vec![
            StagingStep::Verify { file: 0 },
            StagingStep::Verify { file: 1 },
            StagingStep::Verify { file: 2 },
            StagingStep::RemoveStagingDir,
            StagingStep::CreateStagingDir,
            StagingStep::Move { file: 0 },
            StagingStep::Move { file: 1 },
            StagingStep::Move { file: 2 },
        ]
    );
    assert_eq!(plan_staging(0), vec![StagingStep::RemoveStagingDir, StagingStep::CreateStagingDir]);
}

#[test]
fn staged_directory_holds_exactly_the_selected_archives() {
    let listing = names(&["PKGBUILD", "a-1-any.pkg.tar.zst", "stray-1-any.pkg.tar.zst", "b-1-any.pkg.tar.zst"]);
    let plan = check_tars_and_move(&listing, EXT, &name_set(&["a", "b"]));
    // carry the steps out on two lists of names
    let mut build: Vec<String> = listing.clone();
    let mut staged: Vec<String> = names(&["left-over-0.9-any.pkg.tar.zst"]);
    let mut verified: Vec<usize> = Vec::new();
    for step in &plan.steps {
        match step {
            StagingStep::Verify { file } => verified.push(*file),
            StagingStep::RemoveStagingDir => staged.clear(),
            StagingStep::CreateStagingDir => {}
            StagingStep::Move { file } => {
                assert!(verified.contains(file));
                let name = plan.files[*file].clone();
                let at = build.iter().position(|n| *n == name).expect("moved file is in the build directory");
                build.remove(at);
                staged.push(name);
            }
        }
    }
    assert_eq!(staged, names(&["a-1-any.pkg.tar.zst", "b-1-any.pkg.tar.zst"]));
    assert_eq!(build, names(&["PKGBUILD", "stray-1-any.pkg.tar.zst"]));
}

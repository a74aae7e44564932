use rua_install::review::menu_choice;
use rua_install::review::review_menu;
use rua_install::review::review_repo;
use rua_install::review::review_start;
use rua_install::review::MenuChoice;
use rua_install::review::MenuItem;
use rua_install::review::ReviewAction;
use rua_install::review::ReviewEvent;
use rua_install::review::ReviewOutcome;
use rua_install::review::ReviewState;

fn input(line: &str) -> ReviewEvent {
    ReviewEvent::Input { line: line.to_string() }
}

fn assessed(head: Option<&str>, build_rev: Option<&str>, merged: bool, built: bool) -> ReviewEvent {
    ReviewEvent::Assessed {
        head: head.map(|s| s.to_string()),
        build_rev: build_rev.map(|s| s.to_string()),
        merged,
        has_built_package: built,
    }
}

const APPROVED: ReviewState = ReviewState::Done { outcome: ReviewOutcome::Approved };
const KEPT: ReviewState = ReviewState::Done { outcome: ReviewOutcome::KeepCached };

/// Runs the events from the start and returns the states and actions passed.
fn run(events: &[ReviewEvent]) -> Vec<(ReviewState, ReviewAction)> {
    let mut trace = vec![review_start()];
    let mut state = trace[0].0;
    for event in events {
        if let Some(step) = review_repo(state, event) {
            state = step.0;
            trace.push(step);
        }
    }
    trace
}

#[test]
fn review_starts_by_listing_the_directory() {
    assert_eq!(review_start(), (ReviewState::Acquire, ReviewAction::ListDirectory));
}

#[test]
fn empty_directory_is_cloned() {
    let step = review_repo(ReviewState::Acquire, &ReviewEvent::DirectoryListed { empty: true });
    assert_eq!(step, Some((ReviewState::Acquiring, ReviewAction::CloneRecipe)));
}

#[test]
fn populated_directory_is_fetched() {
    let step = review_repo(ReviewState::Acquire, &ReviewEvent::DirectoryListed { empty: false });
    assert_eq!(step, Some((ReviewState::Acquiring, ReviewAction::FetchUpdates)));
}

#[test]
fn acquisition_is_followed_by_assessment() {
    let step = review_repo(ReviewState::Acquiring, &ReviewEvent::Completed);
    assert_eq!(step, Some((ReviewState::Assessing, ReviewAction::AssessCache)));
}

#[test]
fn cache_is_offered_when_all_three_facts_hold() {
    let step = review_repo(ReviewState::Assessing, &assessed(Some("abc1234"), Some("abc1234"), true, true));
    assert_eq!(step, Some((ReviewState::OfferingCache, ReviewAction::PromptCache)));
}

#[test]
fn cache_is_not_offered_for_another_revision() {
    let step = review_repo(ReviewState::Assessing, &assessed(Some("abc1234"), Some("abc1235"), true, true));
    assert_eq!(step, Some((ReviewState::Refreshing, ReviewAction::QueryMergeStatus)));
}

#[test]
fn cache_is_not_offered_while_unmerged() {
    let step = review_repo(ReviewState::Assessing, &assessed(Some("abc1234"), Some("abc1234"), false, true));
    assert_eq!(step, Some((ReviewState::Refreshing, ReviewAction::QueryMergeStatus)));
}

#[test]
fn cache_is_not_offered_without_built_package() {
    let step = review_repo(ReviewState::Assessing, &assessed(Some("abc1234"), Some("abc1234"), true, false));
    assert_eq!(step, Some((ReviewState::Refreshing, ReviewAction::QueryMergeStatus)));
}

#[test]
fn cache_is_not_offered_when_head_is_unknown_but_directory_is_tagged() {
    let step = review_repo(ReviewState::Assessing, &assessed(None, Some("head"), true, true));
    assert_eq!(step, Some((ReviewState::Refreshing, ReviewAction::QueryMergeStatus)));
}

#[test]
fn keeping_the_cache_ends_the_review() {
    let step = review_repo(ReviewState::OfferingCache, &input("c"));
    assert_eq!(step, Some((KEPT, ReviewAction::Finish { outcome: ReviewOutcome::KeepCached })));
}

#[test]
fn declining_the_cache_enters_the_menu_loop() {
    for line in ["r", "", "x", "cc", "o"] {
        let step = review_repo(ReviewState::OfferingCache, &input(line));
        assert_eq!(step, Some((ReviewState::Refreshing, ReviewAction::QueryMergeStatus)));
    }
}

#[test]
fn menu_is_shown_for_the_reported_status() {
    let step = review_repo(ReviewState::Refreshing, &ReviewEvent::MergeStatus { merged: true, identical: true });
    assert_eq!(
        step,
        Some((ReviewState::Menu { merged: true }, ReviewAction::ShowMenu { merged: true, identical: true }))
    );
    let step = review_repo(ReviewState::Refreshing, &ReviewEvent::MergeStatus { merged: false, identical: true });
    assert_eq!(
        step,
        Some((ReviewState::Menu { merged: false }, ReviewAction::ShowMenu { merged: false, identical: false }))
    );
}

#[test]
fn merged_menu_choices() {
    assert_eq!(menu_choice(true, "t"), (ReviewState::Working, ReviewAction::RunShell));
    assert_eq!(menu_choice(true, "s"), (ReviewState::Working, ReviewAction::AnalyzeRecipe));
    assert_eq!(menu_choice(true, "d"), (ReviewState::Working, ReviewAction::ShowDiff { unmerged: false }));
    assert_eq!(menu_choice(true, "m"), (ReviewState::Refreshing, ReviewAction::QueryMergeStatus));
    assert_eq!(menu_choice(true, "o"), (APPROVED, ReviewAction::Finish { outcome: ReviewOutcome::Approved }));
}

#[test]
fn unmerged_menu_choices() {
    assert_eq!(menu_choice(false, "t"), (ReviewState::Working, ReviewAction::RunShell));
    assert_eq!(menu_choice(false, "s"), (ReviewState::Refreshing, ReviewAction::QueryMergeStatus));
    assert_eq!(menu_choice(false, "d"), (ReviewState::Working, ReviewAction::ShowDiff { unmerged: true }));
    assert_eq!(menu_choice(false, "m"), (ReviewState::Working, ReviewAction::MergeUpstream));
    assert_eq!(menu_choice(false, "o"), (ReviewState::Refreshing, ReviewAction::QueryMergeStatus));
}

#[test]
fn unrecognized_input_shows_the_menu_again() {
    for merged in [true, false] {
        for line in ["", "x", "ok", "oo", "O", " o", "ö"] {
            assert_eq!(menu_choice(merged, line), (ReviewState::Refreshing, ReviewAction::QueryMergeStatus));
        }
    }
}

#[test]
fn effects_return_to_the_menu() {
    let step = review_repo(ReviewState::Working, &ReviewEvent::Completed);
    assert_eq!(step, Some((ReviewState::Refreshing, ReviewAction::QueryMergeStatus)));
}

#[test]
fn events_that_are_not_awaited_are_refused() {
    assert_eq!(review_repo(ReviewState::Acquire, &ReviewEvent::Completed), None);
    assert_eq!(review_repo(ReviewState::Acquiring, &input("o")), None);
    assert_eq!(review_repo(ReviewState::Assessing, &input("c")), None);
    assert_eq!(review_repo(ReviewState::OfferingCache, &ReviewEvent::Completed), None);
    assert_eq!(review_repo(ReviewState::Refreshing, &input("o")), None);
    assert_eq!(review_repo(ReviewState::Menu { merged: true }, &ReviewEvent::Completed), None);
    assert_eq!(review_repo(ReviewState::Working, &input("o")), None);
}

#[test]
fn a_finished_review_accepts_nothing() {
    for state in [APPROVED, KEPT] {
        assert_eq!(review_repo(state, &input("o")), None);
        assert_eq!(review_repo(state, &ReviewEvent::Completed), None);
        assert_eq!(review_repo(state, &ReviewEvent::DirectoryListed { empty: true }), None);
        assert_eq!(review_repo(state, &ReviewEvent::MergeStatus { merged: true, identical: true }), None);
    }
}

#[test]
fn approval_is_refused_until_upstream_is_merged() {
    let trace = run(&[
        ReviewEvent::DirectoryListed { empty: false },
        ReviewEvent::Completed,
        assessed(Some("abc1234"), Some("0000000"), false, true),
        ReviewEvent::MergeStatus { merged: false, identical: false },
        input("o"),
        ReviewEvent::MergeStatus { merged: false, identical: false },
        input("m"),
        ReviewEvent::Completed,
        ReviewEvent::MergeStatus { merged: true, identical: false },
        input("o"),
    ]);
    let states: Vec<ReviewState> = trace.iter().map(|step| step.0).collect();
    assert_eq!(
        states,
        vec![
            ReviewState::Acquire,
            ReviewState::Acquiring,
            ReviewState::Assessing,
            ReviewState::Refreshing,
            ReviewState::Menu { merged: false },
            ReviewState::Refreshing,
            ReviewState::Menu { merged: false },
            ReviewState::Working,
            ReviewState::Refreshing,
            ReviewState::Menu { merged: true },
            APPROVED,
        ]
    );
    assert_eq!(trace[7].1, ReviewAction::MergeUpstream);
}

#[test]
fn approval_is_never_reached_from_the_unmerged_menu() {
    let lines = ["o", "s", "d", "m", "t", "c", "r", "", "oo"];
    for line in lines {
        let (state, _) = menu_choice(false, line);
        assert_ne!(state, APPROVED);
    }
    let states = [
        ReviewState::Acquire,
        ReviewState::Acquiring,
        ReviewState::Assessing,
        ReviewState::OfferingCache,
        ReviewState::Refreshing,
        ReviewState::Menu { merged: false },
        ReviewState::Working,
        KEPT,
    ];
    let events = [
        ReviewEvent::DirectoryListed { empty: true },
        ReviewEvent::Completed,
        assessed(Some("a"), Some("a"), true, true),
        ReviewEvent::MergeStatus { merged: true, identical: true },
        input("o"),
        input("c"),
    ];
    for state in states {
        for event in &events {
            if let Some((next, action)) = review_repo(state, event) {
                assert_ne!(next, APPROVED);
                assert_ne!(action, ReviewAction::Finish { outcome: ReviewOutcome::Approved });
            }
        }
    }
}

#[test]
fn menu_for_a_merged_checkout() {
    assert_eq!(
        review_menu(true, false),
        vec![
            MenuItem { key: 's', choice: MenuChoice::Analyze, available: true },
            MenuItem { key: 'd', choice: MenuChoice::ViewDiff, available: true },
            MenuItem { key: 't', choice: MenuChoice::Shell, available: true },
            MenuItem { key: 'o', choice: MenuChoice::Approve, available: true },
        ]
    );
}

#[test]
fn menu_for_a_checkout_identical_to_upstream() {
    assert_eq!(
        review_menu(true, true),
        vec![
            MenuItem { key: 's', choice: MenuChoice::Analyze, available: true },
            MenuItem { key: 'd', choice: MenuChoice::ViewDiff, available: false },
            MenuItem { key: 't', choice: MenuChoice::Shell, available: true },
            MenuItem { key: 'o', choice: MenuChoice::Approve, available: true },
        ]
    );
}

#[test]
fn menu_for_an_unmerged_checkout() {
    for identical in [true, false] {
        assert_eq!(
            review_menu(false, identical),
            vec![
                MenuItem { key: 'd', choice: MenuChoice::ViewDiff, available: true },
                MenuItem { key: 'm', choice: MenuChoice::Merge, available: true },
                MenuItem { key: 's', choice: MenuChoice::Analyze, available: false },
                MenuItem { key: 't', choice: MenuChoice::Shell, available: true },
                MenuItem { key: 'o', choice: MenuChoice::Approve, available: false },
            ]
        );
    }
}

#[test]
fn fresh_clone_is_reviewed_and_approved() {
    let trace = run(&[
        ReviewEvent::DirectoryListed { empty: true },
        ReviewEvent::Completed,
        assessed(Some("abc1234"), None, true, false),
        ReviewEvent::MergeStatus { merged: true, identical: true },
        input("o"),
    ]);
    let actions: Vec<ReviewAction> = trace.iter().map(|step| step.1).collect();
    assert_eq!(
        actions,
        vec![
            ReviewAction::ListDirectory,
            ReviewAction::CloneRecipe,
            ReviewAction::AssessCache,
            ReviewAction::QueryMergeStatus,
            ReviewAction::ShowMenu { merged: true, identical: true },
            ReviewAction::Finish { outcome: ReviewOutcome::Approved },
        ]
    );
}

#[test]
fn unchanged_revision_offers_the_cache_and_keeps_it() {
    let trace = run(&[
        ReviewEvent::DirectoryListed { empty: false },
        ReviewEvent::Completed,
        assessed(Some("abc1234"), Some("abc1234"), true, true),
        input("c"),
    ]);
    let actions: Vec<ReviewAction> = trace.iter().map(|step| step.1).collect();
    assert_eq!(
        actions,
        vec![
            ReviewAction::ListDirectory,
            ReviewAction::FetchUpdates,
            ReviewAction::AssessCache,
            ReviewAction::PromptCache,
            ReviewAction::Finish { outcome: ReviewOutcome::KeepCached },
        ]
    );
}

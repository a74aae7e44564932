//! Reviewing a recipe: before a package may be built, a person inspects its
//! recipe. The review is a state machine. The caller performs each action
//! the machine asks for and reports what happened as the next event.

use crate::names::is_key;
use crate::names::opt_view;
use crate::names::same_optional_text;
use vstd::prelude::*;

verus! {

/// How a review ended.
#[derive(Clone, Copy, Debug, PartialEq, Eq, Structural)]
pub enum ReviewOutcome {
    /// The earlier build is still valid and the user chose to keep it.
    KeepCached,
    /// The user approved the recipe; it is trusted to be built.
    Approved,
}

/// Where a review stands.
#[derive(Clone, Copy, Debug, PartialEq, Eq, Structural)]
pub enum ReviewState {
    /// Entry: the working directory is being listed.
    Acquire,
    /// The recipe is being cloned or fetched.
    Acquiring,
    /// The facts that decide whether the earlier build can be kept are being
    /// collected.
    Assessing,
    /// The user is being asked whether to keep the earlier build.
    OfferingCache,
    /// The merge status is being queried, ahead of showing the menu.
    Refreshing,
    /// The menu is on screen for the given merge status; a line of input is
    /// awaited.
    Menu { merged: bool },
    /// A shell, a diff, the static analysis or a merge is running.
    Working,
    /// The review is over.
    Done { outcome: ReviewOutcome },
}

/// What the caller is asked to do next.
#[derive(Clone, Copy, Debug, PartialEq, Eq, Structural)]
pub enum ReviewAction {
    /// List the working directory and report whether it is empty.
    ListDirectory,
    /// Check the recipe repository out afresh.
    CloneRecipe,
    /// Fetch upstream updates into the existing checkout.
    FetchUpdates,
    /// Collect the head revision, the revision tag of the build directory,
    /// the merge status and whether the build directory holds a built package.
    AssessCache,
    /// Ask whether to keep the earlier build, and read a line.
    PromptCache,
    /// Query whether upstream is merged, and whether the checkout is
    /// identical to upstream.
    QueryMergeStatus,
    /// Show the menu for this status, and read a line.
    ShowMenu { merged: bool, identical: bool },
    /// Open an inspection shell in the working directory.
    RunShell,
    /// Run the static analysis on the recipe.
    AnalyzeRecipe,
    /// Show the diff: against upstream since the last review when
    /// `unmerged`, else the local changes.
    ShowDiff { unmerged: bool },
    /// Merge the upstream changes.
    MergeUpstream,
    /// Nothing more to do: the review ended with this outcome.
    Finish { outcome: ReviewOutcome },
}

/// What the caller reports back.
#[derive(Clone, Debug, PartialEq, Eq)]
pub enum ReviewEvent {
    /// The working directory was listed.
    DirectoryListed { empty: bool },
    /// The clone, fetch, shell, diff, analysis or merge has ended.
    Completed,
    /// The facts asked for by [`ReviewAction::AssessCache`].
    Assessed {
        head: Option<String>,
        build_rev: Option<String>,
        merged: bool,
        has_built_package: bool,
    },
    /// The answer to [`ReviewAction::QueryMergeStatus`].
    MergeStatus { merged: bool, identical: bool },
    /// A line the user typed, in lower case.
    Input { line: String },
}

/// A [`ReviewEvent`] with its texts as character sequences.
pub enum ReviewEventView {
    DirectoryListed { empty: bool },
    Completed,
    Assessed {
        head: Option<Seq<char>>,
        build_rev: Option<Seq<char>>,
        merged: bool,
        has_built_package: bool,
    },
    MergeStatus { merged: bool, identical: bool },
    Input { line: Seq<char> },
}

impl View for ReviewEvent {
    type V = ReviewEventView;

    open spec fn view(&self) -> ReviewEventView {
        match *self {
            ReviewEvent::DirectoryListed { empty } => ReviewEventView::DirectoryListed { empty },
            ReviewEvent::Completed => ReviewEventView::Completed,
            ReviewEvent::Assessed { head, build_rev, merged, has_built_package } => {
                ReviewEventView::Assessed {
                    head: opt_view(head),
                    build_rev: opt_view(build_rev),
                    merged,
                    has_built_package,
                }
            },
            ReviewEvent::MergeStatus { merged, identical } => ReviewEventView::MergeStatus {
                merged,
                identical,
            },
            ReviewEvent::Input { line } => ReviewEventView::Input { line: line@ },
        }
    }
}

/// The earlier build can be kept: it was made from the revision that is
/// checked out now, upstream is merged, and its output is still there.
pub open spec fn reusable(
    head: Option<Seq<char>>,
    build_rev: Option<Seq<char>>,
    merged: bool,
    has_built_package: bool,
) -> bool {
    head == build_rev && merged && has_built_package
}

/// What the menu does with a line of input.
pub open spec fn menu_transition(merged: bool, line: Seq<char>) -> (ReviewState, ReviewAction) {
    if line == seq!['t'] {
        (ReviewState::Working, ReviewAction::RunShell)
    } else if line == seq!['s'] && merged {
        (ReviewState::Working, ReviewAction::AnalyzeRecipe)
    } else if line == seq!['d'] {
        (ReviewState::Working, ReviewAction::ShowDiff { unmerged: !merged })
    } else if line == seq!['m'] && !merged {
        (ReviewState::Working, ReviewAction::MergeUpstream)
    } else if line == seq!['o'] && merged {
        (
            ReviewState::Done { outcome: ReviewOutcome::Approved },
            ReviewAction::Finish { outcome: ReviewOutcome::Approved },
        )
    } else {
        (ReviewState::Refreshing, ReviewAction::QueryMergeStatus)
    }
}

/// The state and action that follow `event` in `state`, or `None` where the
/// state does not await that event.
pub open spec fn review_transition(state: ReviewState, event: ReviewEventView) -> Option<
    (ReviewState, ReviewAction),
> {
    match (state, event) {
        (ReviewState::Acquire, ReviewEventView::DirectoryListed { empty }) => Some(
            (
                ReviewState::Acquiring,
                if empty {
                    ReviewAction::CloneRecipe
                } else {
                    ReviewAction::FetchUpdates
                },
            ),
        ),
        (ReviewState::Acquiring, ReviewEventView::Completed) => Some(
            (ReviewState::Assessing, ReviewAction::AssessCache),
        ),
        (
            ReviewState::Assessing,
            ReviewEventView::Assessed { head, build_rev, merged, has_built_package },
        ) => Some(
            if reusable(head, build_rev, merged, has_built_package) {
                (ReviewState::OfferingCache, ReviewAction::PromptCache)
            } else {
                (ReviewState::Refreshing, ReviewAction::QueryMergeStatus)
            },
        ),
        (ReviewState::OfferingCache, ReviewEventView::Input { line }) => Some(
            if line == seq!['c'] {
                (
                    ReviewState::Done { outcome: ReviewOutcome::KeepCached },
                    ReviewAction::Finish { outcome: ReviewOutcome::KeepCached },
                )
            } else {
                (ReviewState::Refreshing, ReviewAction::QueryMergeStatus)
            },
        ),
        (ReviewState::Refreshing, ReviewEventView::MergeStatus { merged, identical }) => Some(
            (
                ReviewState::Menu { merged },
                ReviewAction::ShowMenu { merged, identical: merged && identical },
            ),
        ),
        (ReviewState::Menu { merged }, ReviewEventView::Input { line }) => Some(
            menu_transition(merged, line),
        ),
        (ReviewState::Working, ReviewEventView::Completed) => Some(
            (ReviewState::Refreshing, ReviewAction::QueryMergeStatus),
        ),
        _ => None,
    }
}

/// The state a review starts in, and the first action to perform.
pub fn review_start() -> (out: (ReviewState, ReviewAction))
    ensures
        out == (ReviewState::Acquire, ReviewAction::ListDirectory),
{
    (ReviewState::Acquire, ReviewAction::ListDirectory)
}

/// One step of the review of a package's recipe repository: the state and
/// action that follow `event` in `state`.
///
/// Returns `None`, and so leaves the review where it stands, exactly when the
/// state does not await that event. Approval is reached only from the menu of
/// a merged checkout.
pub fn review_repo(state: ReviewState, event: &ReviewEvent) -> (out: Option<
    (ReviewState, ReviewAction),
>)
    ensures
        out == review_transition(state, event@),
        out matches Some((ReviewState::Done { outcome: ReviewOutcome::Approved }, _)) ==> state
            == (ReviewState::Menu { merged: true }),
{
    match state {
        ReviewState::Acquire => match event {
            ReviewEvent::DirectoryListed { empty } => {
                if *empty {
                    Some((ReviewState::Acquiring, ReviewAction::CloneRecipe))
                } else {
                    Some((ReviewState::Acquiring, ReviewAction::FetchUpdates))
                }
            },
            _ => None,
        },
        ReviewState::Acquiring => match event {
            ReviewEvent::Completed => Some((ReviewState::Assessing, ReviewAction::AssessCache)),
            _ => None,
        },
        ReviewState::Assessing => match event {
            ReviewEvent::Assessed { head, build_rev, merged, has_built_package } => {
                if same_optional_text(head, build_rev) && *merged && *has_built_package {
                    Some((ReviewState::OfferingCache, ReviewAction::PromptCache))
                } else {
                    Some((ReviewState::Refreshing, ReviewAction::QueryMergeStatus))
                }
            },
            _ => None,
        },
        ReviewState::OfferingCache => match event {
            ReviewEvent::Input { line } => {
                if is_key(line.as_str(), 'c') {
                    Some(
                        (
                            ReviewState::Done { outcome: ReviewOutcome::KeepCached },
                            ReviewAction::Finish { outcome: ReviewOutcome::KeepCached },
                        ),
                    )
                } else {
                    Some((ReviewState::Refreshing, ReviewAction::QueryMergeStatus))
                }
            },
            _ => None,
        },
        ReviewState::Refreshing => match event {
            ReviewEvent::MergeStatus { merged, identical } => Some(
                (
                    ReviewState::Menu { merged: *merged },
                    ReviewAction::ShowMenu { merged: *merged, identical: *merged && *identical },
                ),
            ),
            _ => None,
        },
        ReviewState::Menu { merged } => match event {
            ReviewEvent::Input { line } => Some(menu_choice(merged, line.as_str())),
            _ => None,
        },
        ReviewState::Working => match event {
            ReviewEvent::Completed => Some((ReviewState::Refreshing, ReviewAction::QueryMergeStatus)),
            _ => None,
        },
        ReviewState::Done { .. } => None,
    }
}

/// What the menu does with a line of input. Input that names no available
/// choice shows the menu again.
pub fn menu_choice(merged: bool, line: &str) -> (out: (ReviewState, ReviewAction))
    ensures
        out == menu_transition(merged, line@),
{
    if is_key(line, 't') {
        (ReviewState::Working, ReviewAction::RunShell)
    } else if is_key(line, 's') && merged {
        (ReviewState::Working, ReviewAction::AnalyzeRecipe)
    } else if is_key(line, 'd') {
        (ReviewState::Working, ReviewAction::ShowDiff { unmerged: !merged })
    } else if is_key(line, 'm') && !merged {
        (ReviewState::Working, ReviewAction::MergeUpstream)
    } else if is_key(line, 'o') && merged {
        (
            ReviewState::Done { outcome: ReviewOutcome::Approved },
            ReviewAction::Finish { outcome: ReviewOutcome::Approved },
        )
    } else {
        (ReviewState::Refreshing, ReviewAction::QueryMergeStatus)
    }
}

/// What a menu entry stands for.
#[derive(Clone, Copy, Debug, PartialEq, Eq, Structural)]
pub enum MenuChoice {
    /// Run the static analysis on the recipe.
    Analyze,
    /// View a diff.
    ViewDiff,
    /// Merge the upstream changes.
    Merge,
    /// Open an inspection shell.
    Shell,
    /// Approve the recipe and proceed.
    Approve,
}

/// One entry of the menu: the key that selects it, what it stands for, and
/// whether it is offered or only shown for information.
#[derive(Clone, Copy, Debug, PartialEq, Eq, Structural)]
pub struct MenuItem {
    pub key: char,
    pub choice: MenuChoice,
    pub available: bool,
}

/// The entries of the menu, in the order shown. Before upstream is merged,
/// analysis and approval are listed but not available. Once merged, the diff
/// entry is only informational while the checkout is identical to upstream.
pub open spec fn menu_items(merged: bool, identical: bool) -> Seq<MenuItem> {
    if merged {
        seq![
            MenuItem { key: 's', choice: MenuChoice::Analyze, available: true },
            MenuItem { key: 'd', choice: MenuChoice::ViewDiff, available: !identical },
            MenuItem { key: 't', choice: MenuChoice::Shell, available: true },
            MenuItem { key: 'o', choice: MenuChoice::Approve, available: true },
        ]
    } else {
        seq![
            MenuItem { key: 'd', choice: MenuChoice::ViewDiff, available: true },
            MenuItem { key: 'm', choice: MenuChoice::Merge, available: true },
            MenuItem { key: 's', choice: MenuChoice::Analyze, available: false },
            MenuItem { key: 't', choice: MenuChoice::Shell, available: true },
            MenuItem { key: 'o', choice: MenuChoice::Approve, available: false },
        ]
    }
}

/// The action that carries out a menu choice.
pub open spec fn choice_action(choice: MenuChoice, merged: bool) -> ReviewAction {
    match choice {
        MenuChoice::Analyze => ReviewAction::AnalyzeRecipe,
        MenuChoice::ViewDiff => ReviewAction::ShowDiff { unmerged: !merged },
        MenuChoice::Merge => ReviewAction::MergeUpstream,
        MenuChoice::Shell => ReviewAction::RunShell,
        MenuChoice::Approve => ReviewAction::Finish { outcome: ReviewOutcome::Approved },
    }
}

/// The entries of the menu for a merge status, in the order shown.
pub fn review_menu(merged: bool, identical: bool) -> (out: Vec<MenuItem>)
    ensures
        out@ == menu_items(merged, identical),
{
    let mut out: Vec<MenuItem> = Vec::new();
    if merged {
        out.push(MenuItem { key: 's', choice: MenuChoice::Analyze, available: true });
        out.push(MenuItem { key: 'd', choice: MenuChoice::ViewDiff, available: !identical });
        out.push(MenuItem { key: 't', choice: MenuChoice::Shell, available: true });
        out.push(MenuItem { key: 'o', choice: MenuChoice::Approve, available: true });
    } else {
        out.push(MenuItem { key: 'd', choice: MenuChoice::ViewDiff, available: true });
        out.push(MenuItem { key: 'm', choice: MenuChoice::Merge, available: true });
        out.push(MenuItem { key: 's', choice: MenuChoice::Analyze, available: false });
        out.push(MenuItem { key: 't', choice: MenuChoice::Shell, available: true });
        out.push(MenuItem { key: 'o', choice: MenuChoice::Approve, available: false });
    }
    assert(out@ =~= menu_items(merged, identical));
    out
}

/// The state reached from `state` after `events`, one after the other. An
/// event that the state does not await leaves it unchanged.
pub open spec fn review_run(state: ReviewState, events: Seq<ReviewEventView>) -> ReviewState
    decreases events.len(),
{
    if events.len() == 0 {
        state
    } else {
        let before = review_run(state, events.drop_last());
        match review_transition(before, events.last()) {
            Some((next, _)) => next,
            None => before,
        }
    }
}

/// Every entry that the menu offers does what it stands for, and the entries
/// for analysis and approval that it shows as unavailable only bring the menu
/// back.
pub proof fn menu_entries_match_transitions(merged: bool, identical: bool, i: int)
    requires
        0 <= i < menu_items(merged, identical).len(),
    ensures
        ({
            let item = menu_items(merged, identical)[i];
            &&& item.available ==> menu_transition(merged, seq![item.key]).1 == choice_action(
                item.choice,
                merged,
            )
            &&& !item.available && item.choice != MenuChoice::ViewDiff ==> menu_transition(
                merged,
                seq![item.key],
            ) == (ReviewState::Refreshing, ReviewAction::QueryMergeStatus)
            &&& (item.choice == MenuChoice::Approve ==> item.available == merged)
        }),
{
    let key = menu_items(merged, identical)[i].key;
    let line = seq![key];
    assert(line[0] == key);
    assert(seq!['t'][0] == 't');
    assert(seq!['s'][0] == 's');
    assert(seq!['d'][0] == 'd');
    assert(seq!['m'][0] == 'm');
    assert(seq!['o'][0] == 'o');
    if key == 't' {
        assert(line =~= seq!['t']);
    } else if key == 's' {
        assert(line =~= seq!['s']);
    } else if key == 'd' {
        assert(line =~= seq!['d']);
    } else if key == 'm' {
        assert(line =~= seq!['m']);
    } else {
        assert(line =~= seq!['o']);
    }
}

/// No step leads to approval unless the menu was shown for a merged
/// checkout and the line typed was `o`; and the menu is shown for a merged
/// checkout only after a report that upstream is merged.
pub proof fn approval_needs_merged_menu(state: ReviewState, event: ReviewEventView)
    ensures
        review_transition(state, event) matches Some(
            (ReviewState::Done { outcome: ReviewOutcome::Approved }, _),
        ) ==> state == (ReviewState::Menu { merged: true }) && event == (ReviewEventView::Input {
            line: seq!['o'],
        }),
        review_transition(state, event) matches Some((ReviewState::Menu { merged: true }, _))
            ==> state == ReviewState::Refreshing && event matches ReviewEventView::MergeStatus {
            merged: true,
            ..
        },
{
}

/// However a review runs, from its start and whatever is reported to it, the
/// step that ends it in approval is taken from the menu of a merged checkout,
/// on the line `o`.
pub proof fn approval_only_while_merged(events: Seq<ReviewEventView>, n: int)
    requires
        0 <= n < events.len(),
        review_run(ReviewState::Acquire, events.take(n + 1)) == (ReviewState::Done {
            outcome: ReviewOutcome::Approved,
        }),
        review_run(ReviewState::Acquire, events.take(n)) != (ReviewState::Done {
            outcome: ReviewOutcome::Approved,
        }),
    ensures
        review_run(ReviewState::Acquire, events.take(n)) == (ReviewState::Menu { merged: true }),
        events[n] == (ReviewEventView::Input { line: seq!['o'] }),
{
    let upto = events.take(n + 1);
    assert(upto.drop_last() =~= events.take(n));
    assert(upto.last() == events[n]);
    approval_needs_merged_menu(review_run(ReviewState::Acquire, events.take(n)), events[n]);
}

/// A review that has ended stays ended: no event moves it.
pub proof fn done_is_final(outcome: ReviewOutcome, events: Seq<ReviewEventView>)
    ensures
        review_run(ReviewState::Done { outcome }, events) == (ReviewState::Done { outcome }),
    decreases events.len(),
{
    if events.len() > 0 {
        done_is_final(outcome, events.drop_last());
    }
}

/// The earlier build is kept only if it was found reusable: the step into
/// that outcome is taken on the line `c` from the offer, and the offer is
/// made only on facts that make the build reusable.
pub proof fn cache_kept_only_when_reusable(state: ReviewState, event: ReviewEventView)
    ensures
        review_transition(state, event) matches Some(
            (ReviewState::Done { outcome: ReviewOutcome::KeepCached }, _),
        ) ==> state == ReviewState::OfferingCache && event == (ReviewEventView::Input {
            line: seq!['c'],
        }),
        review_transition(state, event) matches Some((ReviewState::OfferingCache, _)) ==> state
            == ReviewState::Assessing && (event matches ReviewEventView::Assessed {
            head,
            build_rev,
            merged,
            has_built_package,
        } && reusable(head, build_rev, merged, has_built_package)),
{
}

} // verus!

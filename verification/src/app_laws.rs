//! Laws of the dashboard: which repositories are listed and selected, what a pull makes of a
//! repository, and what is told of it.

use vstd::prelude::*;
use vstd::string::*;

use crate::app::{
    logged, queued_repo, status_count, AppState, RepoStatus, RepoView, RING_BUFFER_CAPACITY,
};
use crate::elapsed::Elapsed;
use crate::info::WorktreeView;
use crate::number::decimal;
use crate::outside::lowercase;
use crate::pull::{advance_step, PullAllSummary, PullOutcome, StepView};
use crate::text::has_text;
use crate::worker::{
    next_action, page_worktrees, pull_message_of, row_step, skip_line, step_message,
    summary_message_of, PageRow, FIRST_PAUSE_SECS, LONGEST_PAUSE_SECS,
};

verus! {

// ---------------------------------------------------------------------------
// The list

/// A repository is listed exactly if there is no filter, or the filter in lower case stands in its
/// name in lower case; each is listed once, in the order of the repositories.
pub proof fn law_listed_repos_match_the_filter(app: AppState)
    requires
        app.repos@.len() <= usize::MAX,
    ensures
        ({
            let listed = app.visible();
            &&& forall|k: int| 0 <= k < listed.len() ==> #[trigger] listed[k] < app.repos@.len()
            &&& forall|k: int, l: int|
                0 <= k < l < listed.len() ==> #[trigger] listed[k] < #[trigger] listed[l]
            &&& forall|i: int|
                0 <= i < app.repos@.len() ==> (listed.contains(i as usize) <==> match app.filter {
                    None => true,
                    Some(filter) => has_text(
                        lowercase((#[trigger] app.repos@[i]).name@),
                        lowercase(filter@),
                    ),
                })
        }),
{
    let names = crate::app::names_of(app.repos@).map_values(|name: Seq<char>| lowercase(name));
    let filter = match app.filter {
        Some(filter) => Some(lowercase(filter@)),
        None => None,
    };
    crate::app::law_shown_places_increase(names, filter);
    assert(names.len() == app.repos@.len());
    assert forall|i: int| 0 <= i < app.repos@.len() implies (app.visible().contains(i as usize)
        <==> match app.filter {
        None => true,
        Some(filter) => has_text(
            lowercase((#[trigger] app.repos@[i]).name@),
            lowercase(filter@),
        ),
    }) by {
        assert(names[i] == lowercase(app.repos@[i].name@));
        assert(crate::app::is_shown(names[i], filter) <==> app.visible().contains(i as usize));
    }
}

/// The repository that is selected is the one at the selected place of the list; behind the last
/// one, none is.
pub proof fn law_selection_names_the_listed_repo(app: AppState)
    ensures
        app.selected < app.visible().len() ==> app.selected_repo() == Some(
            app.visible()[app.selected as int],
        ),
        app.selected >= app.visible().len() ==> app.selected_repo() is None,
{
}

/// A move of the selection changes the selection, notes that the user moved it and closes the
/// summary; nothing else changes.
pub proof fn law_navigation_changes_only_the_selection(app: AppState, selected: usize)
    ensures
        ({
            let after = app.navigated(selected);
            &&& after.selected == selected
            &&& after.user_navigated
            &&& !after.result_overlay
            &&& after == AppState {
                selected,
                user_navigated: after.user_navigated,
                result_overlay: after.result_overlay,
                ..app
            }
        }),
{
}

/// A click names an item exactly inside the border of the list: the repository of the row, and
/// the summary two rows below the last repository. The row between them, and any below, name
/// none.
pub proof fn law_click_names_the_row(app: AppState, col: u16, row: u16)
    requires
        app.visible().len() <= usize::MAX,
    ensures
        ({
            let area = app.list_area;
            let inside = area.x + 1 <= col && col + 1 < area.x + area.width && area.y + 1 <= row
                && row + 1 < area.y + area.height;
            let line = row - area.y - 1 + app.list_offset;
            let listed = app.visible().len();
            &&& !inside ==> app.item_at(col, row) is None
            &&& inside && line < listed ==> (app.item_at(col, row) matches Some(item) && item
                == line)
            &&& inside && line == listed + 1 ==> (app.item_at(col, row) matches Some(item) && item
                == listed)
            &&& inside && line >= listed && line != listed + 1 ==> app.item_at(col, row) is None
        }),
{
}

/// One more repository adds one to the count of a kind that it is of, and nothing otherwise; no
/// repository counts for nothing.
pub proof fn law_each_repo_is_counted_by_status(
    statuses: Seq<RepoStatus>,
    status: RepoStatus,
    kind: spec_fn(RepoStatus) -> bool,
)
    ensures
        status_count(Seq::empty(), kind) == 0,
        status_count(statuses.push(status), kind) == status_count(statuses, kind) + (if kind(
            status,
        ) {
            1nat
        } else {
            0nat
        }),
{
    reveal(Seq::filter);
    assert(Seq::<RepoStatus>::empty().filter(kind) =~= Seq::empty());
    assert(statuses.push(status).drop_last() =~= statuses);
    assert(statuses.push(status).filter(kind) =~= if kind(status) {
        statuses.filter(kind).push(status)
    } else {
        statuses.filter(kind)
    });
}

/// The pull of a repository is over exactly if it is neither queued nor running.
pub proof fn law_pull_is_over_unless_under_way(status: RepoStatus)
    ensures
        status.is_over() <==> !(status is Queued) && !(status is Running),
{
}

/// Of a new repository nothing is known but its name and its path: its pull is queued, its log is
/// empty, and its preview is at the top and follows the log.
pub proof fn law_new_repo_is_queued(name: Seq<char>, path: Seq<char>)
    ensures
        ({
            let repo = queued_repo(name, path);
            &&& repo.name == name
            &&& repo.path == path
            &&& repo.status is Queued
            &&& repo.log.len() == 0
            &&& repo.auto_scroll
            &&& repo.preview_scroll == 0
            &&& repo.branch is None && repo.start is None && repo.elapsed is None
            &&& repo.remote_url is None && repo.details is None && repo.diff is None
            &&& repo.page is None && !repo.details_loading && !repo.page_loading
        }),
{
}

/// A line that is logged stands last; the lines before it stay, but for the first of ten thousand.
pub proof fn law_logged_line_stands_last(log: Seq<Seq<char>>, line: Seq<char>)
    requires
        log.len() <= 10_000,
    ensures
        RING_BUFFER_CAPACITY == 10_000,
        logged(log, line).last() == line,
        log.len() < 10_000 ==> logged(log, line).drop_last() == log,
        log.len() == 10_000 ==> logged(log, line).drop_last() == log.drop_first(),
{
    assert(logged(log, line).drop_last() =~= if log.len() < 10_000 {
        log
    } else {
        log.drop_first()
    });
}

// ---------------------------------------------------------------------------
// A pull

/// What a pull makes of its repository, for each outcome: up to date, or without an upstream, it
/// is up to date; updated, it stays as it is until the summary is there; throttled, it is queued
/// again, and its time runs on; failed, it has failed. Nothing but the status and the time that
/// was taken changes.
pub proof fn law_pull_settles_by_its_outcome(
    repo: RepoView,
    outcome: PullOutcome,
    elapsed: Elapsed,
)
    ensures
        ({
            let after = repo.settled(outcome, elapsed);
            &&& outcome is AlreadyUpToDate || outcome is NoUpstream ==> after.status is UpToDate
                && after.elapsed == Some(elapsed)
            &&& outcome is Failed ==> after.status is Failed && after.elapsed == Some(elapsed)
            &&& outcome is Throttled ==> after.status is Queued && after.elapsed == repo.elapsed
            &&& outcome is Updated ==> after.status == repo.status && after.elapsed == repo.elapsed
            &&& after == RepoView { status: after.status, elapsed: after.elapsed, ..repo }
        }),
{
}

/// What is done next, for each outcome of a pull: the summary of an update is asked for, a
/// throttled repository waits for its turn again, and any other is done.
pub proof fn law_next_action_by_outcome(outcome: PullOutcome)
    ensures
        next_action(outcome) is AskStat <==> outcome is Updated,
        next_action(outcome) is Requeue <==> outcome is Throttled,
        next_action(outcome) is Done <==> outcome is AlreadyUpToDate || outcome is NoUpstream
            || outcome is Failed,
{
}

/// A pull that has come to an end changes nothing but the status and the time that was taken.
pub proof fn law_end_sets_status_and_time(repo: RepoView, status: RepoStatus, elapsed: Elapsed)
    ensures
        repo.ended(status, elapsed).status == status,
        repo.ended(status, elapsed).elapsed == Some(elapsed),
        repo.ended(status, elapsed) == (RepoView {
            status,
            elapsed: Some(elapsed),
            ..repo
        }),
{
}

/// The log of a repository that is skipped ends with its name and the reason, and nothing else of
/// the repository changes but its status and its time.
pub proof fn law_skipped_repo_says_why(repo: RepoView)
    requires
        repo.log.len() <= 10_000,
    ensures
        ({
            let after = repo.checked(true);
            &&& after.log.last() == "⊘ Skipping "@ + repo.name + " (has uncommitted changes)"@
            &&& after.log.last() == skip_line(repo.name)
            &&& after == RepoView {
                status: after.status,
                elapsed: after.elapsed,
                log: after.log,
                ..repo
            }
        }),
{
    law_logged_line_stands_last(repo.log, skip_line(repo.name));
}

/// A throttled repository first waits a second, and never more than a minute.
pub proof fn law_pauses_last_a_second_to_a_minute()
    ensures
        FIRST_PAUSE_SECS == 1,
        LONGEST_PAUSE_SECS == 60,
{
}

// ---------------------------------------------------------------------------
// Rows of a page, and messages

/// A row of a page is pulled where it lies: a worktree by a merge at its own path, whatever the
/// repository and its worktrees are, and a branch as any branch of the repository is advanced.
pub proof fn law_row_is_pulled_where_it_lies(
    repo: Seq<char>,
    worktrees: Seq<WorktreeView>,
    row: PageRow,
)
    ensures
        row.kind is Worktree ==> (row_step(repo, worktrees, row) matches StepView::Merge(args)
            && args.len() == 5 && args[0] == "-C"@ && args[1] == row.path@ && args[2] == "merge"@
            && args[3] == "--ff-only"@ && args[4] == "@{u}"@),
        row.kind is Branch ==> row_step(repo, worktrees, row) == advance_step(
            repo,
            worktrees,
            row.is_head,
            row.branch@,
            match row.upstream {
                Some(upstream) => Some(upstream@),
                None => None,
            },
        ),
{
}

/// The worktrees that count for a row are those of the page; without a page there are none.
pub proof fn law_worktrees_of_the_page(repo: RepoView)
    ensures
        repo.page is None ==> page_worktrees(repo).len() == 0,
        repo.page matches Some(page) ==> page_worktrees(repo) == page.worktrees,
{
}

/// A step that worked says what was done; one that failed says why, behind what failed.
pub proof fn law_step_says_what_it_came_to(
    done: Seq<char>,
    failed: Seq<char>,
    reason: Seq<char>,
)
    ensures
        step_message(Ok(()), done, failed) == done,
        step_message(Err(reason), done, failed) == failed + reason,
{
}

/// A pull of a branch says that it was pulled exactly if it was updated, why it failed where it
/// did, and that it is up to date otherwise.
pub proof fn law_pull_says_what_it_came_to(
    outcome: PullOutcome,
    branch: Seq<char>,
    reason: Seq<char>,
)
    ensures
        pull_message_of(Ok(PullOutcome::Updated), branch) == "Pulled "@ + branch,
        outcome != PullOutcome::Updated ==> pull_message_of(Ok(outcome), branch) == branch
            + " already up to date"@,
        pull_message_of(Err(reason), branch) == "pull failed: "@ + reason,
{
}

/// A pull of every branch says how many were updated, up to date and skipped, in this order, and
/// how many failed only if any did.
pub proof fn law_summary_says_the_counts(summary: PullAllSummary)
    ensures
        ({
            let counts = "Pulled: "@ + decimal(summary.updated as nat) + " updated, "@ + decimal(
                summary.up_to_date as nat,
            ) + " up-to-date, "@ + decimal(summary.skipped as nat) + " skipped"@;
            &&& summary.failed == 0 ==> summary_message_of(summary) == counts
            &&& summary.failed > 0 ==> summary_message_of(summary) == counts + (", "@ + decimal(
                summary.failed as nat,
            ) + " failed"@)
        }),
{
}

} // verus!

//! The work on a repository: what each step of a pull, of a page and of a change on it does to the
//! state of the dashboard.

use vstd::prelude::*;
use vstd::string::*;

use crate::app::{
    logged, logged_all, AppState, PageView, RepoPageData, RepoState, RepoStatus, RepoView,
    WorktreeEntry,
};
use crate::commands::pull_args;
use crate::elapsed::Elapsed;
use crate::git::{branch_or_unknown, branch_told};
use crate::groups::{entries_map, GroupSource, GroupsCache};
use crate::info::{BranchInfo, RepoDetails, WorktreeInfo, WorktreeView};
use crate::number::{decimal, decimal_text};
use crate::output::{step_view, told, CommandOutput};
use crate::outside::lowercase;
use crate::pull::{
    advance, advance_step, classify_pull_output, merge_command, merge_ff_args, pull_outcome,
    pull_view, PullAllSummary, PullOutcome, PullResult, PullStep, StepView,
};
use crate::resolution::{
    cache_groups, cached_entries, due_groups, finish_resolution, finished_groups, first_failure,
    paired, start_resolution, GroupView,
};
use crate::text::{lines, lines_of, terminated};

verus! {

// ---------------------------------------------------------------------------
// The pull of a repo

/// What is to be done next for a pull.
pub enum PullAction {
    /// Run `timeout` with these arguments.
    Run(Vec<String>),
    /// Ask for the summary of what was pulled, and hand it to `finish_update`.
    AskStat,
    /// Nothing: the pull is over.
    Done,
    /// Pull again later: the remote throttled us.
    Requeue,
}

/// What a `PullAction` holds.
pub enum ActionView {
    Run(Seq<Seq<char>>),
    AskStat,
    Done,
    Requeue,
}

impl DeepView for PullAction {
    type V = ActionView;

    open spec fn deep_view(&self) -> ActionView {
        match self {
            PullAction::Run(args) => ActionView::Run(args.deep_view()),
            PullAction::AskStat => ActionView::AskStat,
            PullAction::Done => ActionView::Done,
            PullAction::Requeue => ActionView::Requeue,
        }
    }
}

/// The log line of a repo that is skipped.
pub open spec fn skip_line(name: Seq<char>) -> Seq<char> {
    "⊘ Skipping "@ + name + " (has uncommitted changes)"@
}

impl RepoView {
    /// The repo when its pull has come to an end.
    pub open spec fn ended(self, status: RepoStatus, elapsed: Elapsed) -> RepoView {
        RepoView { status, elapsed: Some(elapsed), ..self }
    }

    /// The repo when it is known whether its tree is dirty.
    pub open spec fn checked(self, dirty: bool) -> RepoView {
        if dirty {
            RepoView { log: logged(self.log, skip_line(self.name)), ..self }.ended(
                RepoStatus::Skipped,
                Elapsed { secs: 0, nanos: 0 },
            )
        } else {
            self
        }
    }

    /// The repo when git has exited: a branch without an upstream has nothing to pull, and a
    /// throttled repo waits for its turn again.
    pub open spec fn settled(self, outcome: PullOutcome, elapsed: Elapsed) -> RepoView {
        match outcome {
            PullOutcome::AlreadyUpToDate | PullOutcome::NoUpstream => self.ended(
                RepoStatus::UpToDate,
                elapsed,
            ),
            PullOutcome::Updated => self,
            PullOutcome::Throttled => RepoView { status: RepoStatus::Queued, ..self },
            PullOutcome::Failed => self.ended(RepoStatus::Failed, elapsed),
        }
    }
}

/// What is to be done when git has exited.
pub open spec fn next_action(outcome: PullOutcome) -> ActionView {
    match outcome {
        PullOutcome::Updated => ActionView::AskStat,
        PullOutcome::Throttled => ActionView::Requeue,
        _ => ActionView::Done,
    }
}

/// The lines of a stream as they were read, each with its line feed.
pub fn collect_stream(read: &Vec<String>) -> (text: String)
    ensures
        text@ == terminated(read.deep_view()),
{
    let ghost all = read.deep_view();
    let mut text = String::new();
    let mut i: usize = 0;
    assert(text@ =~= terminated(all.take(0)));
    while i < read.len()
        invariant
            i <= read@.len(),
            all == read.deep_view(),
            text@ == terminated(all.take(i as int)),
        decreases read@.len() - i,
    {
        proof {
            assert(all[i as int] == read@[i as int]@);
            assert(all.take(i + 1).drop_last() =~= all.take(i as int));
        }
        text.append(read[i].as_str());
        text.append("\n");
        i = i + 1;
    }
    assert(all.take(i as int) =~= all);
    text
}

impl RepoState {
    /// The pull begins.
    pub fn begin_pull(&mut self, now: Elapsed)
        ensures
            final(self).deep_view() == (RepoView {
                start: Some(now),
                elapsed: None,
                ..old(self).deep_view()
            }),
    {
        self.start = Some(now);
        self.elapsed = None;
    }

    /// The branch is told; "?" where it could not be.
    pub fn note_branch(&mut self, run: &Result<CommandOutput, String>)
        ensures
            final(self).deep_view() == (RepoView {
                branch: Some(
                    match branch_told(told(*run)) {
                        Ok(branch) => branch,
                        Err(_) => "?"@,
                    },
                ),
                ..old(self).deep_view()
            }),
    {
        self.branch = Some(branch_or_unknown(run));
    }

    /// It is known whether the tree is dirty: a dirty repo is skipped, a clean one is pulled.
    pub fn check_tree(&mut self, dirty: bool, timeout_secs: u64) -> (action: PullAction)
        ensures
            final(self).deep_view() == old(self).deep_view().checked(dirty),
            action.deep_view() == (if dirty {
                ActionView::Done
            } else {
                ActionView::Run(
                    seq![
                        decimal(timeout_secs as nat),
                        "git"@,
                        "-C"@,
                        old(self).path@,
                        "pull"@,
                        "--ff-only"@,
                    ],
                )
            }),
    {
        if dirty {
            self.elapsed = Some(Elapsed::zero());
            self.status = RepoStatus::Skipped;
            let line = "⊘ Skipping ".to_string().concat(self.name.as_str()).concat(
                " (has uncommitted changes)",
            );
            self.log.push(line);
            return PullAction::Done;
        }
        PullAction::Run(pull_args(self.path.as_str(), timeout_secs))
    }

    /// Git runs.
    pub fn note_process(&mut self, pid: Option<u32>)
        ensures
            final(self).deep_view() == (RepoView {
                status: RepoStatus::Running {
                    pid: match pid {
                        Some(pid) => pid,
                        None => 0,
                    },
                },
                ..old(self).deep_view()
            }),
    {
        let pid: u32 = match pid {
            Some(pid) => pid,
            None => 0,
        };
        self.status = RepoStatus::Running { pid };
    }

    /// Git has written a line.
    pub fn note_line(&mut self, line: String)
        ensures
            final(self).deep_view() == (RepoView {
                log: logged(old(self).deep_view().log, line@),
                ..old(self).deep_view()
            }),
    {
        self.log.push(line);
    }

    /// What the pull came to is known.
    pub fn settle_pull(&mut self, outcome: PullOutcome, elapsed: Elapsed) -> (action: PullAction)
        ensures
            final(self).deep_view() == old(self).deep_view().settled(outcome, elapsed),
            action.deep_view() == next_action(outcome),
    {
        match outcome {
            PullOutcome::AlreadyUpToDate | PullOutcome::NoUpstream => {
                self.elapsed = Some(elapsed);
                self.status = RepoStatus::UpToDate;
                PullAction::Done
            },
            PullOutcome::Updated => PullAction::AskStat,
            PullOutcome::Throttled => {
                self.status = RepoStatus::Queued;
                PullAction::Requeue
            },
            PullOutcome::Failed => {
                self.elapsed = Some(elapsed);
                self.status = RepoStatus::Failed;
                PullAction::Done
            },
        }
    }

    /// Git has exited, and these are the lines that it wrote.
    pub fn finish_pull(
        &mut self,
        stdout: &Vec<String>,
        stderr: &Vec<String>,
        exit_success: bool,
        elapsed: Elapsed,
    ) -> (action: PullAction)
        ensures
            ({
                let combined = terminated(stdout.deep_view()) + terminated(stderr.deep_view());
                let outcome = pull_outcome(combined, lowercase(combined), exit_success);
                &&& final(self).deep_view() == old(self).deep_view().settled(outcome, elapsed)
                &&& action.deep_view() == next_action(outcome)
            }),
    {
        let errors = collect_stream(stderr);
        let combined = collect_stream(stdout).concat(errors.as_str());
        let outcome = classify_pull_output(combined.as_str(), exit_success);
        self.settle_pull(outcome, elapsed)
    }

    /// The summary of what was pulled is there, where it could be had: it goes to the log.
    pub fn finish_update(&mut self, stat: &Result<String, String>, elapsed: Elapsed)
        ensures
            final(self).deep_view() == (RepoView {
                log: logged_all(
                    old(self).deep_view().log,
                    match told(*stat) {
                        Ok(text) => lines_of(text),
                        Err(_) => Seq::empty(),
                    },
                ),
                ..old(self).deep_view()
            }).ended(RepoStatus::Updated, elapsed),
    {
        if let Ok(text) = stat {
            let found = lines(text.as_str());
            let ghost all = found.deep_view();
            let mut i: usize = 0;
            while i < found.len()
                invariant
                    i <= found@.len(),
                    all == found.deep_view(),
                    self.deep_view() == (RepoView {
                        log: logged_all(old(self).deep_view().log, all.take(i as int)),
                        ..old(self).deep_view()
                    }),
                decreases found@.len() - i,
            {
                proof {
                    assert(all[i as int] == found@[i as int]@);
                    assert(all.take(i + 1).drop_last() =~= all.take(i as int));
                }
                self.log.push(found[i].clone());
                i = i + 1;
            }
            assert(all.take(i as int) =~= all);
        }
        self.elapsed = Some(elapsed);
        self.status = RepoStatus::Updated;
    }

    /// The address of the remote is told, where there is one.
    pub fn note_remote_url(&mut self, url: Option<String>)
        ensures
            final(self).deep_view() == (match url.deep_view() {
                Some(url) => RepoView { remote_url: Some(url), ..old(self).deep_view() },
                None => old(self).deep_view(),
            }),
    {
        if let Some(url) = url {
            self.remote_url = Some(url);
        }
    }

    /// The details that were asked for are there.
    pub fn load_details(&mut self, details: RepoDetails)
        ensures
            final(self).deep_view() == (RepoView {
                details: Some(details.deep_view()),
                details_loading: false,
                ..old(self).deep_view()
            }),
    {
        self.details = Some(details);
        self.details_loading = false;
    }

    /// Whether the details are still to be filled in.
    pub fn lacks_details(&self) -> (lacking: bool)
        ensures
            lacking == (self.details is None),
    {
        self.details.is_none()
    }

    /// The details are filled in, in the background.
    pub fn fill_details(&mut self, details: RepoDetails)
        ensures
            final(self).deep_view() == (RepoView {
                details: Some(details.deep_view()),
                ..old(self).deep_view()
            }),
    {
        self.details = Some(details);
    }

    /// The diff is there.
    pub fn load_diff(&mut self, diff: Vec<String>)
        ensures
            final(self).deep_view() == (RepoView {
                diff: Some(diff.deep_view()),
                ..old(self).deep_view()
            }),
    {
        self.diff = Some(diff);
    }

    /// The page shows its branches and worktrees, before the remotes are fetched.
    pub fn open_page(&mut self, branches: Vec<BranchInfo>, worktrees: Vec<WorktreeInfo>)
        ensures
            final(self).deep_view() == (RepoView {
                page: Some(
                    PageView {
                        branches: branches.deep_view(),
                        worktrees: worktrees.deep_view(),
                        fetched: false,
                        fetch_error: None,
                    },
                ),
                ..old(self).deep_view()
            }),
    {
        self.page =
        Some(RepoPageData { branches, worktrees, fetched: false, fetch_error: None });
    }

    /// The page shows its branches and worktrees once the remotes are fetched.
    pub fn refresh_page(
        &mut self,
        branches: Vec<BranchInfo>,
        worktrees: Vec<WorktreeInfo>,
        fetch: Result<(), String>,
    )
        ensures
            final(self).deep_view() == (RepoView {
                page: Some(
                    PageView {
                        branches: branches.deep_view(),
                        worktrees: worktrees.deep_view(),
                        fetched: true,
                        fetch_error: match step_view(fetch) {
                            Ok(()) => None,
                            Err(message) => Some(message),
                        },
                    },
                ),
                page_loading: false,
                ..old(self).deep_view()
            }),
    {
        let fetch_error = match fetch {
            Ok(()) => None,
            Err(message) => Some(message),
        };
        self.page = Some(RepoPageData { branches, worktrees, fetched: true, fetch_error });
        self.page_loading = false;
    }
}

/// How long a throttled repo waits before it is pulled again, in seconds.
pub const FIRST_PAUSE_SECS: u64 = 1;

/// How long a throttled repo waits at most, in seconds.
pub const LONGEST_PAUSE_SECS: u64 = 60;

/// How long a repo that is throttled again waits, in seconds: twice as long as before, and at most
/// the longest pause.
pub fn next_pause(pause: u64) -> (next: u64)
    ensures
        next == (if 2 * pause <= LONGEST_PAUSE_SECS {
            2 * pause
        } else {
            LONGEST_PAUSE_SECS as int
        }),
{
    if pause <= LONGEST_PAUSE_SECS / 2 {
        2 * pause
    } else {
        LONGEST_PAUSE_SECS
    }
}

/// How many workers may run at once: at least one.
pub fn worker_permits(max_jobs: usize) -> (permits: usize)
    ensures
        permits == (if max_jobs == 0 {
            1
        } else {
            max_jobs
        }),
{
    if max_jobs == 0 {
        1
    } else {
        max_jobs
    }
}

// ---------------------------------------------------------------------------
// The dashboard

/// The worktrees as they are listed: repo and branch.
pub fn worktree_entries(found: &Vec<(String, String)>) -> (entries: Vec<WorktreeEntry>)
    ensures
        entries.deep_view() == found.deep_view(),
{
    let mut entries: Vec<WorktreeEntry> = Vec::new();
    let mut i: usize = 0;
    while i < found.len()
        invariant
            i <= found@.len(),
            entries.deep_view() =~= found.deep_view().take(i as int),
        decreases found@.len() - i,
    {
        assert(found.deep_view()[i as int] == found@[i as int].deep_view());
        let ghost before = entries.deep_view();
        let entry = WorktreeEntry { repo: found[i].0.clone(), branch: found[i].1.clone() };
        let ghost one = entry.deep_view();
        entries.push(entry);
        assert(entries.deep_view() =~= before.push(one));
        i = i + 1;
    }
    entries
}

/// A row of a repo page.
pub enum PageRowKind {
    Branch,
    Worktree,
}

/// The branch or worktree that a row of a repo page shows.
pub struct PageRow {
    pub kind: PageRowKind,
    pub branch: String,
    /// Where the worktree lies.
    pub path: String,
    pub is_head: bool,
    pub upstream: Option<String>,
}

/// How the row of a repo page is fast-forwarded.
pub open spec fn row_step(repo: Seq<char>, worktrees: Seq<WorktreeView>, row: PageRow) -> StepView {
    match row.kind {
        PageRowKind::Worktree => StepView::Merge(merge_command(row.path@)),
        PageRowKind::Branch => advance_step(
            repo,
            worktrees,
            row.is_head,
            row.branch@,
            row.upstream.deep_view(),
        ),
    }
}

/// The worktrees that the page of a repo shows.
pub open spec fn page_worktrees(repo: RepoView) -> Seq<WorktreeView> {
    match repo.page {
        Some(page) => page.worktrees,
        None => Seq::empty(),
    }
}

/// How the row of a repo page is fast-forwarded: a worktree where it lies, a branch where it is
/// checked out, and elsewhere by a fetch into it.
pub fn plan_row(repo: &RepoState, row: &PageRow) -> (step: PullStep)
    ensures
        step.deep_view() == row_step(repo.path@, page_worktrees(repo.deep_view()), *row),
{
    match row.kind {
        PageRowKind::Worktree => PullStep::Merge(merge_ff_args(row.path.as_str())),
        PageRowKind::Branch => match &repo.page {
            Some(page) => advance(
                repo.path.as_str(),
                &page.worktrees,
                row.is_head,
                row.branch.as_str(),
                &row.upstream,
            ),
            None => {
                let none: Vec<WorktreeInfo> = Vec::new();
                assert(none.deep_view() =~= Seq::<WorktreeView>::empty());
                advance(
                    repo.path.as_str(),
                    &none,
                    row.is_head,
                    row.branch.as_str(),
                    &row.upstream,
                )
            },
        },
    }
}

/// The message of a finished step: what it did, or why it failed.
pub open spec fn step_message(
    result: Result<(), Seq<char>>,
    done: Seq<char>,
    failed: Seq<char>,
) -> Seq<char> {
    match result {
        Ok(()) => done,
        Err(message) => failed + message,
    }
}

/// The message of a checkout.
pub fn checkout_message(result: &Result<(), String>, branch: &str) -> (message: String)
    ensures
        message@ == step_message(
            step_view(*result),
            "Checked out "@ + branch@,
            "checkout failed: "@,
        ),
{
    match result {
        Ok(()) => "Checked out ".to_string().concat(branch),
        Err(message) => "checkout failed: ".to_string().concat(message.as_str()),
    }
}

/// The message of a branch that was deleted.
pub fn delete_message(result: &Result<(), String>, branch: &str) -> (message: String)
    ensures
        message@ == step_message(step_view(*result), "Deleted "@ + branch@, "delete failed: "@),
{
    match result {
        Ok(()) => "Deleted ".to_string().concat(branch),
        Err(message) => "delete failed: ".to_string().concat(message.as_str()),
    }
}

/// The message of a row that was pulled.
pub open spec fn pull_message_of(
    result: Result<PullOutcome, Seq<char>>,
    branch: Seq<char>,
) -> Seq<char> {
    match result {
        Ok(PullOutcome::Updated) => "Pulled "@ + branch,
        Ok(_) => branch + " already up to date"@,
        Err(message) => "pull failed: "@ + message,
    }
}

/// The message of a row that was pulled.
pub fn pull_message(result: &PullResult, branch: &str) -> (message: String)
    ensures
        message@ == pull_message_of(pull_view(*result), branch@),
{
    match result {
        Ok(PullOutcome::Updated) => "Pulled ".to_string().concat(branch),
        Ok(_) => branch.to_string().concat(" already up to date"),
        Err(message) => "pull failed: ".to_string().concat(message.as_str()),
    }
}

/// The message of a pull of every branch.
pub open spec fn summary_message_of(summary: PullAllSummary) -> Seq<char> {
    "Pulled: "@ + decimal(summary.updated as nat) + " updated, "@ + decimal(
        summary.up_to_date as nat,
    ) + " up-to-date, "@ + decimal(summary.skipped as nat) + " skipped"@ + if summary.failed > 0 {
        ", "@ + decimal(summary.failed as nat) + " failed"@
    } else {
        Seq::empty()
    }
}

/// The message of a pull of every branch.
pub fn summary_message(summary: &PullAllSummary) -> (message: String)
    ensures
        message@ == summary_message_of(*summary),
{
    let failed = if summary.failed > 0 {
        ", ".to_string().concat(decimal_text(summary.failed as u64).as_str()).concat(" failed")
    } else {
        let none = String::new();
        assert(none@ =~= Seq::<char>::empty());
        none
    };
    "Pulled: ".to_string().concat(decimal_text(summary.updated as u64).as_str()).concat(
        " updated, ",
    ).concat(decimal_text(summary.up_to_date as u64).as_str()).concat(" up-to-date, ").concat(
        decimal_text(summary.skipped as u64).as_str(),
    ).concat(" skipped").concat(failed.as_str())
}

impl AppState {
    /// The worktrees have been discovered.
    pub fn load_worktrees(&mut self, worktrees: Vec<WorktreeEntry>)
        ensures
            *final(self) == (AppState { worktrees, worktrees_done: true, ..*old(self) }),
    {
        self.worktrees = worktrees;
        self.worktrees_done = true;
    }

    /// A change on the page of a repo is done: its message is shown, and the page is loaded anew.
    pub fn finish_page_action(&mut self, repo_idx: usize, message: String)
        requires
            repo_idx < old(self).repos@.len(),
        ensures
            *final(self) == (AppState {
                repos: final(self).repos,
                repo_page_message: Some(message),
                ..*old(self)
            }),
            final(self).repos.deep_view() == old(self).repos.deep_view().update(
                repo_idx as int,
                RepoView { page: None, ..old(self).repos@[repo_idx as int].deep_view() },
            ),
    {
        self.repo_page_message = Some(message);
        self.repos[repo_idx].page = None;
        assert(self.repos.deep_view() =~= old(self).repos.deep_view().update(
            repo_idx as int,
            RepoView { page: None, ..old(self).repos@[repo_idx as int].deep_view() },
        ));
    }

    /// Starts the resolution of the groups that are due, or of every dynamic one when `force`.
    pub fn start_group_resolution(&mut self, now: u64, force: bool) -> (targets: Vec<
        (usize, GroupSource),
    >)
        ensures
            *final(self) == (AppState { groups: final(self).groups, ..*old(self) }),
            final(self).groups.deep_view() == old(self).groups.deep_view().map_values(
                |group: GroupView|
                    group.started(now, old(self).group_cache_ttl_minutes, force),
            ),
            targets.deep_view() == due_groups(
                old(self).groups.deep_view(),
                now,
                old(self).group_cache_ttl_minutes,
                force,
            ),
            forall|i: int|
                0 <= i < targets@.len() ==> 0 <= (#[trigger] targets@[i]).0
                    < old(self).groups@.len(),
    {
        let ttl: u64 = self.group_cache_ttl_minutes;
        start_resolution(&mut self.groups, now, ttl, force)
    }

    /// The resolutions have come back: the groups take them in, the first failure is shown, and
    /// what is to be kept for the next start is handed back.
    pub fn finish_group_resolution(
        &mut self,
        targets: &Vec<(usize, GroupSource)>,
        results: Vec<Result<Vec<String>, String>>,
        now: u64,
    ) -> (cache: GroupsCache)
        requires
            forall|i: int|
                0 <= i < targets@.len() ==> 0 <= (#[trigger] targets@[i]).0
                    < old(self).groups@.len(),
        ensures
            ({
                let n = paired(targets@.len(), results@.len());
                let groups = old(self).groups.deep_view();
                let places = targets.deep_view();
                &&& *final(self) == (AppState {
                    groups: final(self).groups,
                    toast: final(self).toast,
                    ..*old(self)
                })
                &&& final(self).groups.deep_view() == finished_groups(
                    groups,
                    places,
                    results@,
                    now,
                    n,
                )
                &&& final(self).toast.deep_view() == (match first_failure(
                    groups,
                    places,
                    results@,
                    n,
                ) {
                    Some(message) => Some(message),
                    None => old(self).toast.deep_view(),
                })
                &&& cache.wf()
                &&& cache@ == entries_map(cached_entries(final(self).groups.deep_view()))
            }),
    {
        let failure = finish_resolution(&mut self.groups, targets, results, now);
        if let Some(message) = failure {
            self.toast = Some(message);
        }
        cache_groups(&self.groups)
    }
}

// ---------------------------------------------------------------------------
// Laws

/// A pull ends: whatever git came to, the repo is done, waits for its turn again, or is done once
/// its summary is there; and it counts as failed exactly if the pull failed.
pub proof fn law_pull_ends(repo: RepoView, outcome: PullOutcome, elapsed: Elapsed)
    ensures
        ({
            let after = repo.settled(outcome, elapsed);
            let action = next_action(outcome);
            &&& action is Done <==> after.status.is_over() && outcome != PullOutcome::Updated
                && outcome != PullOutcome::Throttled
            &&& action is Done ==> after.status.is_over() && after.elapsed == Some(elapsed)
            &&& action is Requeue ==> after.status == RepoStatus::Queued
            &&& action is AskStat ==> after == repo
            &&& action is Done && after.status == RepoStatus::Failed <==> outcome
                == PullOutcome::Failed
        }),
{
}

/// A repo with uncommitted changes is never pulled: it is skipped, in no time, and its log says
/// why.
pub proof fn law_dirty_repo_is_skipped(repo: RepoView)
    ensures
        repo.checked(true).status == RepoStatus::Skipped,
        repo.checked(true).elapsed == Some(Elapsed { secs: 0, nanos: 0 }),
        repo.checked(true).log == logged(repo.log, skip_line(repo.name)),
        repo.checked(false) == repo,
{
}

/// The steps of a pull change nothing but the state of the pull: the repo keeps its name, its
/// path and what its page shows.
pub proof fn law_pull_keeps_repo(repo: RepoView, dirty: bool, outcome: PullOutcome, elapsed: Elapsed)
    ensures
        ({
            let after = repo.checked(dirty).settled(outcome, elapsed);
            &&& after.name == repo.name
            &&& after.path == repo.path
            &&& after.branch == repo.branch
            &&& after.page == repo.page
            &&& after.preview_scroll == repo.preview_scroll
            &&& after.start == repo.start
        }),
{
}

} // verus!

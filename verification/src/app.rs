//! The state of the dashboard: the repositories with their logs, the selection, and the counts.

use std::collections::VecDeque;

use vstd::prelude::*;
use vstd::string::*;
use vstd::utf8::*;

use crate::elapsed::Elapsed;
use crate::info::{
    BranchInfo, BranchView, DetailsView, RepoDetails, WorktreeInfo, WorktreeView,
};
use crate::outside::{ascii_lower, lowercase, to_lowercase};
use crate::resolution::GroupState;
use crate::text::{contains, has_text};
use crate::wildcard::{lemma_lower_letters, same_letters};

pub use crate::outside::Rect;

verus! {

/// Maximum lines in the per-repo ring buffer.
pub const RING_BUFFER_CAPACITY: usize = 10_000;

/// How far the pull of a repo has come.
#[derive(Debug, Clone, Copy, PartialEq, Eq, Structural)]
pub enum RepoStatus {
    Queued,
    Running { pid: u32 },
    UpToDate,
    Updated,
    Skipped,
    Failed,
}

impl RepoStatus {
    /// The pull has come to an end.
    pub open spec fn is_over(self) -> bool {
        self is UpToDate || self is Updated || self is Skipped || self is Failed
    }

    /// Whether the pull has come to an end.
    pub fn is_terminal(&self) -> (over: bool)
        ensures
            over == self.is_over(),
    {
        matches!(
            self,
            RepoStatus::UpToDate | RepoStatus::Updated | RepoStatus::Skipped | RepoStatus::Failed
        )
    }

    /// Whether the pull has failed.
    pub fn is_failed(&self) -> (failed: bool)
        ensures
            failed == (*self is Failed),
    {
        matches!(self, RepoStatus::Failed)
    }

    /// Whether a retry applies: the pull failed or was skipped.
    pub fn is_retryable(&self) -> (retryable: bool)
        ensures
            retryable == (*self is Failed || *self is Skipped),
    {
        matches!(self, RepoStatus::Failed | RepoStatus::Skipped)
    }
}

// ---------------------------------------------------------------------------
// The log of a repo

/// Ring buffer capped at `RING_BUFFER_CAPACITY` lines.
#[derive(Debug)]
pub struct LogBuffer {
    lines: VecDeque<String>,
}

impl View for LogBuffer {
    type V = Seq<Seq<char>>;

    closed spec fn view(&self) -> Seq<Seq<char>> {
        self.lines.deep_view()
    }
}

/// A log with one more line: a full one gives up its oldest line.
pub open spec fn logged(log: Seq<Seq<char>>, line: Seq<char>) -> Seq<Seq<char>> {
    if log.len() >= RING_BUFFER_CAPACITY {
        log.drop_first().push(line)
    } else {
        log.push(line)
    }
}

/// A log with more lines, in order.
pub open spec fn logged_all(log: Seq<Seq<char>>, lines: Seq<Seq<char>>) -> Seq<Seq<char>>
    decreases lines.len(),
{
    if lines.len() == 0 {
        log
    } else {
        logged(logged_all(log, lines.drop_last()), lines.last())
    }
}

impl Default for LogBuffer {
    fn default() -> (log: Self)
        ensures
            log@ == Seq::<Seq<char>>::empty(),
    {
        let log = LogBuffer { lines: VecDeque::new() };
        assert(log@ =~= Seq::<Seq<char>>::empty());
        log
    }
}

impl LogBuffer {
    /// Adds a line; a full buffer gives up its oldest one.
    pub fn push(&mut self, line: String)
        ensures
            final(self)@ == logged(old(self)@, line@),
            old(self)@.len() <= RING_BUFFER_CAPACITY ==> final(self)@.len()
                <= RING_BUFFER_CAPACITY,
    {
        let ghost before = self@;
        let ghost text = line@;
        if self.lines.len() >= RING_BUFFER_CAPACITY {
            let ghost oldest = self.lines@;
            self.lines.pop_front();
            assert(self.lines@ =~= oldest.drop_first());
            assert(self@ =~= before.drop_first());
        }
        let ghost kept = self@;
        self.lines.push_back(line);
        assert(self@ =~= kept.push(text));
    }

    /// The lines, oldest first.
    pub fn lines(&self) -> (lines: &VecDeque<String>)
        ensures
            lines.deep_view() == self@,
    {
        &self.lines
    }

    /// Removes every line.
    pub fn clear(&mut self)
        ensures
            final(self)@ == Seq::<Seq<char>>::empty(),
    {
        self.lines.clear();
        assert(self@ =~= Seq::<Seq<char>>::empty());
    }
}

// ---------------------------------------------------------------------------
// A repo

/// What the page of a repo shows.
#[derive(Debug)]
pub struct RepoPageData {
    pub branches: Vec<BranchInfo>,
    pub worktrees: Vec<WorktreeInfo>,
    /// Whether the remotes have been fetched since the page was opened.
    pub fetched: bool,
    pub fetch_error: Option<String>,
}

/// What a `RepoPageData` holds.
#[verifier::ext_equal]
pub struct PageView {
    pub branches: Seq<BranchView>,
    pub worktrees: Seq<WorktreeView>,
    pub fetched: bool,
    pub fetch_error: Option<Seq<char>>,
}

impl DeepView for RepoPageData {
    type V = PageView;

    open spec fn deep_view(&self) -> PageView {
        PageView {
            branches: self.branches.deep_view(),
            worktrees: self.worktrees.deep_view(),
            fetched: self.fetched,
            fetch_error: self.fetch_error.deep_view(),
        }
    }
}

/// A repository and the state of its pull.
#[derive(Debug)]
pub struct RepoState {
    pub name: String,
    pub path: String,
    pub branch: Option<String>,
    pub status: RepoStatus,
    /// Log ring buffer (stdout + stderr from git pull).
    pub log: LogBuffer,
    /// Whether the preview pane should auto-scroll to bottom.
    pub auto_scroll: bool,
    /// Preview pane scroll offset (lines from top).
    pub preview_scroll: usize,
    /// When this repo's pull began (after acquiring the concurrency permit), since the program
    /// started.
    pub start: Option<Elapsed>,
    /// Wall-clock time spent on this repo, set when a terminal status is assigned.
    pub elapsed: Option<Elapsed>,
    /// The browsable address of the `origin` remote.
    pub remote_url: Option<String>,
    pub details: Option<RepoDetails>,
    pub details_loading: bool,
    /// The lines of the diff view.
    pub diff: Option<Vec<String>>,
    pub page: Option<RepoPageData>,
    pub page_loading: bool,
}

/// What a `RepoState` holds.
#[verifier::ext_equal]
pub struct RepoView {
    pub name: Seq<char>,
    pub path: Seq<char>,
    pub branch: Option<Seq<char>>,
    pub status: RepoStatus,
    pub log: Seq<Seq<char>>,
    pub auto_scroll: bool,
    pub preview_scroll: usize,
    pub start: Option<Elapsed>,
    pub elapsed: Option<Elapsed>,
    pub remote_url: Option<Seq<char>>,
    pub details: Option<DetailsView>,
    pub details_loading: bool,
    pub diff: Option<Seq<Seq<char>>>,
    pub page: Option<PageView>,
    pub page_loading: bool,
}

impl DeepView for RepoState {
    type V = RepoView;

    open spec fn deep_view(&self) -> RepoView {
        RepoView {
            name: self.name@,
            path: self.path@,
            branch: self.branch.deep_view(),
            status: self.status,
            log: self.log@,
            auto_scroll: self.auto_scroll,
            preview_scroll: self.preview_scroll,
            start: self.start,
            elapsed: self.elapsed,
            remote_url: self.remote_url.deep_view(),
            details: self.details.deep_view(),
            details_loading: self.details_loading,
            diff: self.diff.deep_view(),
            page: self.page.deep_view(),
            page_loading: self.page_loading,
        }
    }
}

/// A repo whose pull is queued.
pub open spec fn queued_repo(name: Seq<char>, path: Seq<char>) -> RepoView {
    RepoView {
        name,
        path,
        branch: None,
        status: RepoStatus::Queued,
        log: Seq::empty(),
        auto_scroll: true,
        preview_scroll: 0,
        start: None,
        elapsed: None,
        remote_url: None,
        details: None,
        details_loading: false,
        diff: None,
        page: None,
        page_loading: false,
    }
}

impl RepoState {
    /// A repo whose pull is queued.
    pub fn new(name: String, path: String) -> (repo: RepoState)
        ensures
            repo.deep_view() == queued_repo(name@, path@),
    {
        RepoState {
            name,
            path,
            branch: None,
            status: RepoStatus::Queued,
            log: LogBuffer::default(),
            auto_scroll: true,
            preview_scroll: 0,
            start: None,
            elapsed: None,
            remote_url: None,
            details: None,
            details_loading: false,
            diff: None,
            page: None,
            page_loading: false,
        }
    }
}

/// Worktree entry discovered from `<repo>.worktrees/<branch>/.git`.
#[derive(Debug)]
pub struct WorktreeEntry {
    pub repo: String,
    pub branch: String,
}

impl DeepView for WorktreeEntry {
    type V = (Seq<char>, Seq<char>);

    open spec fn deep_view(&self) -> (Seq<char>, Seq<char>) {
        (self.repo@, self.branch@)
    }
}

impl Clone for WorktreeEntry {
    fn clone(&self) -> (copy: Self)
        ensures
            copy.deep_view() == self.deep_view(),
    {
        WorktreeEntry { repo: self.repo.clone(), branch: self.branch.clone() }
    }
}

// ---------------------------------------------------------------------------
// The dashboard

/// The overall application state, shared between the async worker tasks and the UI.
pub struct AppState {
    /// Repos in alphabetical order.
    pub repos: Vec<RepoState>,
    /// Worktree entries (discovered asynchronously).
    pub worktrees: Vec<WorktreeEntry>,
    /// Worktree discovery complete?
    pub worktrees_done: bool,
    /// Index of the selected item in the list (0 = first repo, repos.len() = Result).
    pub selected: usize,
    /// Whether the user has manually moved the selection (disables auto-select).
    pub user_navigated: bool,
    /// Whether focus is on the preview pane (for preview scroll keys).
    pub preview_focused: bool,
    /// Filter string (from `/` mode).
    pub filter: Option<String>,
    /// Filter input mode active?
    pub filter_input_mode: bool,
    /// All pulls are done?
    pub all_done: bool,
    /// Number of jobs configured.
    pub max_jobs: usize,
    /// When true, the preview shows the Result summary regardless of selection.
    pub result_overlay: bool,
    /// Main content area (above the status bar) — captured each render for hit-testing.
    pub main_area: Rect,
    /// Left list pane rect — captured each render for hit-testing.
    pub list_area: Rect,
    /// Right preview pane rect — captured each render for hit-testing.
    pub preview_area: Rect,
    /// Column of the divider between the panes (= preview_area.x).
    pub divider_col: u16,
    /// Scroll offset of the list widget, read back after render for row hit-testing.
    pub list_offset: usize,
    /// Whether the help modal is shown.
    pub show_help: bool,
    /// Scroll offset of the help modal.
    pub help_scroll: usize,
    /// The screen rows of the help modal that open an address.
    pub help_links: Vec<(u16, String)>,
    /// The groups and what is known of their members.
    pub groups: Vec<GroupState>,
    /// Freshness window of dynamic group membership, in minutes.
    pub group_cache_ttl_minutes: u64,
    /// What the last action on a repo page came to.
    pub repo_page_message: Option<String>,
    /// The message that is shown for a moment.
    pub toast: Option<String>,
}

/// The names of the repos.
pub open spec fn names_of(repos: Seq<RepoState>) -> Seq<Seq<char>> {
    repos.map_values(|repo: RepoState| repo.name@)
}

/// The statuses of the repos.
pub open spec fn statuses_of(repos: Seq<RepoState>) -> Seq<RepoStatus> {
    repos.map_values(|repo: RepoState| repo.status)
}

/// The places of the names that hold `part`, in order.
pub open spec fn places_with(names: Seq<Seq<char>>, part: Seq<char>) -> Seq<usize>
    decreases names.len(),
{
    if names.len() == 0 {
        Seq::empty()
    } else {
        let before = places_with(names.drop_last(), part);
        if has_text(names.last(), part) {
            before.push((names.len() - 1) as usize)
        } else {
            before
        }
    }
}

/// Every place of a list, in order.
pub open spec fn all_places(n: nat) -> Seq<usize> {
    Seq::new(n, |i: int| i as usize)
}

/// The filter shows a name: the name holds it, or there is none.
pub open spec fn is_shown(name: Seq<char>, filter: Option<Seq<char>>) -> bool {
    match filter {
        Some(part) => has_text(name, part),
        None => true,
    }
}

/// The places of the repos that the filter shows, by their names and the filter in lower case.
pub open spec fn shown_places(names: Seq<Seq<char>>, filter: Option<Seq<char>>) -> Seq<usize> {
    match filter {
        None => all_places(names.len()),
        Some(part) => places_with(names, part),
    }
}

/// The places of the names that hold `part`, in order.
pub fn find_places(names: &Vec<String>, part: &str) -> (places: Vec<usize>)
    ensures
        places@ == places_with(names.deep_view(), part@),
{
    let ghost all = names.deep_view();
    let mut places: Vec<usize> = Vec::new();
    let mut i: usize = 0;
    while i < names.len()
        invariant
            i <= names@.len(),
            all == names.deep_view(),
            places@ =~= places_with(all.take(i as int), part@),
        decreases names@.len() - i,
    {
        proof {
            assert(all[i as int] == names@[i as int]@);
            assert(all.take(i + 1).drop_last() =~= all.take(i as int));
        }
        if contains(names[i].as_str(), part) {
            places.push(i);
        }
        i = i + 1;
    }
    assert(all.take(i as int) =~= all);
    places
}

/// How many repos have a status that `kind` names.
pub open spec fn status_count(statuses: Seq<RepoStatus>, kind: spec_fn(RepoStatus) -> bool) -> nat {
    statuses.filter(kind).len()
}

/// The places of the repos whose pull failed, in order.
pub open spec fn failed_places(statuses: Seq<RepoStatus>) -> Seq<usize>
    decreases statuses.len(),
{
    if statuses.len() == 0 {
        Seq::empty()
    } else {
        let before = failed_places(statuses.drop_last());
        if statuses.last() is Failed {
            before.push((statuses.len() - 1) as usize)
        } else {
            before
        }
    }
}

impl AppState {
    /// The places of the repos that the filter shows. The letter case of names and filter does
    /// not count.
    pub open spec fn visible(self) -> Seq<usize> {
        shown_places(
            names_of(self.repos@).map_values(|name: Seq<char>| lowercase(name)),
            match self.filter {
                Some(filter) => Some(lowercase(filter@)),
                None => None,
            },
        )
    }

    /// The names of the repos and the filter are ASCII.
    pub open spec fn is_ascii(self) -> bool {
        &&& forall|i: int|
            0 <= i < self.repos@.len() ==> is_ascii_chars((#[trigger] self.repos@[i]).name@)
        &&& self.filter matches Some(filter) ==> is_ascii_chars(filter@)
    }

    /// The places of the repos that the filter shows, where names and filter are ASCII.
    pub open spec fn visible_ascii(self) -> Seq<usize> {
        shown_places(
            names_of(self.repos@).map_values(|name: Seq<char>| ascii_lower(name)),
            match self.filter {
                Some(filter) => Some(ascii_lower(filter@)),
                None => None,
            },
        )
    }

    /// A dashboard of repos whose pulls have not begun.
    pub fn new(repos: Vec<RepoState>, max_jobs: usize) -> (app: AppState)
        ensures
            app.repos == repos,
            app.max_jobs == max_jobs,
            app.worktrees@.len() == 0,
            !app.worktrees_done,
            app.selected == 0,
            !app.user_navigated,
            !app.preview_focused,
            app.filter is None,
            !app.filter_input_mode,
            !app.all_done,
            !app.result_overlay,
            app.main_area == (Rect { x: 0, y: 0, width: 0, height: 0 }),
            app.list_area == app.main_area,
            app.preview_area == app.main_area,
            app.divider_col == 0,
            app.list_offset == 0,
            !app.show_help,
            app.help_scroll == 0,
            app.help_links@.len() == 0,
            app.groups@.len() == 0,
            app.group_cache_ttl_minutes == crate::groups::DEFAULT_CACHE_TTL_MINUTES,
            app.repo_page_message is None,
            app.toast is None,
    {
        AppState {
            repos,
            worktrees: Vec::new(),
            worktrees_done: false,
            selected: 0,
            user_navigated: false,
            preview_focused: false,
            filter: None,
            filter_input_mode: false,
            all_done: false,
            max_jobs,
            result_overlay: false,
            main_area: Rect::default(),
            list_area: Rect::default(),
            preview_area: Rect::default(),
            divider_col: 0,
            list_offset: 0,
            show_help: false,
            help_scroll: 0,
            help_links: Vec::new(),
            groups: Vec::new(),
            group_cache_ttl_minutes: crate::groups::DEFAULT_CACHE_TTL_MINUTES,
            repo_page_message: None,
            toast: None,
        }
    }

    /// Returns indices of repos visible given the current filter.
    pub fn visible_indices(&self) -> (places: Vec<usize>)
        ensures
            places@ == self.visible(),
            self.is_ascii() ==> places@ == self.visible_ascii(),
            places@.len() <= self.repos@.len(),
            forall|k: int| 0 <= k < places@.len() ==> 0 <= #[trigger] places@[k] < self.repos@.len(),
    {
        let ghost names = names_of(self.repos@);
        let mut lower: Vec<String> = Vec::new();
        let mut places: Vec<usize> = Vec::new();
        let mut i: usize = 0;
        while i < self.repos.len()
            invariant
                i <= self.repos@.len(),
                names == names_of(self.repos@),
                lower.deep_view() =~= names.take(i as int).map_values(
                    |name: Seq<char>| lowercase(name),
                ),
                places@ =~= all_places(i as nat),
                forall|j: int|
                    0 <= j < i && is_ascii_chars(#[trigger] names[j]) ==> lowercase(names[j])
                        == ascii_lower(names[j]),
            decreases self.repos@.len() - i,
        {
            assert(names[i as int] == self.repos@[i as int].name@);
            let ghost before = lower.deep_view();
            let name = to_lowercase(self.repos[i].name.as_str());
            lower.push(name);
            assert(lower.deep_view() =~= before.push(name@));
            places.push(i);
            i = i + 1;
        }
        assert(names.take(i as int) =~= names);
        proof {
            if self.is_ascii() {
                assert forall|j: int| 0 <= j < names.len() implies lowercase(#[trigger] names[j])
                    == ascii_lower(names[j]) by {
                    assert(is_ascii_chars(self.repos@[j].name@));
                }
                assert(names.map_values(|name: Seq<char>| lowercase(name)) =~= names.map_values(
                    |name: Seq<char>| ascii_lower(name),
                ));
            }
        }
        match &self.filter {
            None => places,
            Some(filter) => {
                let part = to_lowercase(filter.as_str());
                proof {
                    law_shown_places_increase(lower.deep_view(), Some(part@));
                }
                find_places(&lower, part.as_str())
            },
        }
    }

    /// Total items in the list (visible repos + 1 Result item).
    pub fn list_len(&self) -> (len: usize)
        requires
            self.repos@.len() < usize::MAX,
        ensures
            len == self.visible().len() + 1,
    {
        self.visible_indices().len() + 1
    }

    /// Count of repos in each state: queued, running, updated, up to date, skipped and failed.
    pub fn counts(&self) -> (counts: (usize, usize, usize, usize, usize, usize))
        ensures
            counts.0 == status_count(statuses_of(self.repos@), |s: RepoStatus| s is Queued),
            counts.1 == status_count(statuses_of(self.repos@), |s: RepoStatus| s is Running),
            counts.2 == status_count(statuses_of(self.repos@), |s: RepoStatus| s is Updated),
            counts.3 == status_count(statuses_of(self.repos@), |s: RepoStatus| s is UpToDate),
            counts.4 == status_count(statuses_of(self.repos@), |s: RepoStatus| s is Skipped),
            counts.5 == status_count(statuses_of(self.repos@), |s: RepoStatus| s is Failed),
            counts.0 + counts.1 + counts.2 + counts.3 + counts.4 + counts.5 == self.repos@.len(),
    {
        let ghost all = statuses_of(self.repos@);
        let mut queued: usize = 0;
        let mut running: usize = 0;
        let mut updated: usize = 0;
        let mut up_to_date: usize = 0;
        let mut skipped: usize = 0;
        let mut failed: usize = 0;
        let mut i: usize = 0;
        let total: usize = self.repos.len();
        proof {
            assert(all.take(0) =~= Seq::empty());
            reveal(Seq::filter);
        }
        while i < total
            invariant
                i <= total,
                total == self.repos@.len(),
                all == statuses_of(self.repos@),
                queued == status_count(all.take(i as int), |s: RepoStatus| s is Queued),
                running == status_count(all.take(i as int), |s: RepoStatus| s is Running),
                updated == status_count(all.take(i as int), |s: RepoStatus| s is Updated),
                up_to_date == status_count(all.take(i as int), |s: RepoStatus| s is UpToDate),
                skipped == status_count(all.take(i as int), |s: RepoStatus| s is Skipped),
                failed == status_count(all.take(i as int), |s: RepoStatus| s is Failed),
                queued + running + updated + up_to_date + skipped + failed == i,
            decreases total - i,
        {
            proof {
                let done = all.take(i as int);
                assert(all.take(i + 1) =~= done.push(all[i as int]));
                done.lemma_filter_push(all[i as int], |s: RepoStatus| s is Queued);
                done.lemma_filter_push(all[i as int], |s: RepoStatus| s is Running);
                done.lemma_filter_push(all[i as int], |s: RepoStatus| s is Updated);
                done.lemma_filter_push(all[i as int], |s: RepoStatus| s is UpToDate);
                done.lemma_filter_push(all[i as int], |s: RepoStatus| s is Skipped);
                done.lemma_filter_push(all[i as int], |s: RepoStatus| s is Failed);
            }
            match self.repos[i].status {
                RepoStatus::Queued => {
                    queued = queued + 1;
                },
                RepoStatus::Running { .. } => {
                    running = running + 1;
                },
                RepoStatus::Updated => {
                    updated = updated + 1;
                },
                RepoStatus::UpToDate => {
                    up_to_date = up_to_date + 1;
                },
                RepoStatus::Skipped => {
                    skipped = skipped + 1;
                },
                RepoStatus::Failed => {
                    failed = failed + 1;
                },
            }
            i = i + 1;
        }
        assert(all.take(i as int) =~= all);
        (queued, running, updated, up_to_date, skipped, failed)
    }

    /// How many pulls have come to an end.
    pub fn done_count(&self) -> (done: usize)
        ensures
            done == status_count(statuses_of(self.repos@), |s: RepoStatus| s.is_over()),
            done <= self.repos@.len(),
    {
        let total: usize = self.repos.len();
        let (_, _, updated, up_to_date, skipped, failed) = self.counts();
        assert(updated + up_to_date + skipped + failed <= total);
        proof {
            lemma_over_count(statuses_of(self.repos@));
        }
        updated + up_to_date + skipped + failed
    }

    /// The places of the repos whose pull failed, in order.
    pub fn failed_repos(&self) -> (places: Vec<usize>)
        ensures
            places@ == failed_places(statuses_of(self.repos@)),
    {
        let ghost all = statuses_of(self.repos@);
        let mut places: Vec<usize> = Vec::new();
        let mut i: usize = 0;
        while i < self.repos.len()
            invariant
                i <= self.repos@.len(),
                all == statuses_of(self.repos@),
                places@ =~= failed_places(all.take(i as int)),
            decreases self.repos@.len() - i,
        {
            assert(all.take(i + 1).drop_last() =~= all.take(i as int));
            if self.repos[i].status.is_failed() {
                places.push(i);
            }
            i = i + 1;
        }
        assert(all.take(i as int) =~= all);
        places
    }

    /// The state with the selection moved by the user: the Result overlay goes away.
    pub open spec fn navigated(self, selected: usize) -> AppState {
        AppState { selected, user_navigated: true, result_overlay: false, ..self }
    }

    /// Navigate selection up, returns true if changed.
    pub fn nav_up(&mut self) -> (moved: bool)
        ensures
            moved == (old(self).selected > 0),
            *final(self) == old(self).navigated(
                if moved {
                    (old(self).selected - 1) as usize
                } else {
                    old(self).selected
                },
            ),
            old(self).selected <= old(self).visible().len() ==> final(self).selected
                <= final(self).visible().len(),
    {
        self.user_navigated = true;
        self.result_overlay = false;
        if self.selected > 0 {
            self.selected = self.selected - 1;
            true
        } else {
            false
        }
    }

    /// Navigate selection down, returns true if changed.
    pub fn nav_down(&mut self) -> (moved: bool)
        ensures
            moved == (old(self).selected < old(self).visible().len()),
            *final(self) == old(self).navigated(
                if moved {
                    (old(self).selected + 1) as usize
                } else {
                    old(self).selected
                },
            ),
            old(self).selected <= old(self).visible().len() ==> final(self).selected
                <= final(self).visible().len(),
    {
        self.user_navigated = true;
        self.result_overlay = false;
        let last: usize = self.visible_indices().len();
        if self.selected < last {
            self.selected = self.selected + 1;
            true
        } else {
            false
        }
    }

    /// Selects the first item of the list.
    pub fn nav_top(&mut self)
        ensures
            *final(self) == old(self).navigated(0),
    {
        self.user_navigated = true;
        self.result_overlay = false;
        self.selected = 0;
    }

    /// Selects the last item of the list, which is the Result.
    pub fn nav_bottom(&mut self)
        ensures
            *final(self) == old(self).navigated(old(self).visible().len() as usize),
    {
        self.user_navigated = true;
        self.result_overlay = false;
        self.selected = self.visible_indices().len();
    }

    /// The repo that is selected; none where the Result is.
    pub open spec fn selected_repo(self) -> Option<usize> {
        if self.selected < self.visible().len() {
            Some(self.visible()[self.selected as int])
        } else {
            None
        }
    }

    /// Returns the repo index for the current selection, or None if Result is selected.
    pub fn selected_repo_index(&self) -> (place: Option<usize>)
        ensures
            place == self.selected_repo(),
            place matches Some(i) ==> i < self.repos@.len(),
    {
        let visible = self.visible_indices();
        if self.selected < visible.len() {
            Some(visible[self.selected])
        } else {
            None
        }
    }

    /// Whether the selected repo can be retried: its pull failed or was skipped.
    pub fn selected_repo_retryable(&self) -> (retryable: bool)
        ensures
            retryable == (self.selected_repo() matches Some(i) && (self.repos@[i as int].status is Failed
                || self.repos@[i as int].status is Skipped)),
    {
        match self.selected_repo_index() {
            Some(i) => self.repos[i].status.is_retryable(),
            None => false,
        }
    }

    /// Whether any repo can be retried.
    pub fn any_retryable(&self) -> (retryable: bool)
        ensures
            retryable == exists|i: int|
                0 <= i < self.repos@.len() && ((#[trigger] self.repos@[i]).status is Failed
                    || self.repos@[i].status is Skipped),
    {
        let mut i: usize = 0;
        while i < self.repos.len()
            invariant
                i <= self.repos@.len(),
                forall|j: int|
                    0 <= j < i ==> !((#[trigger] self.repos@[j]).status is Failed
                        || self.repos@[j].status is Skipped),
            decreases self.repos@.len() - i,
        {
            if self.repos[i].status.is_retryable() {
                return true;
            }
            i = i + 1;
        }
        false
    }

    /// Whether the selected repo can be pulled again: its pull is not in progress.
    pub fn selected_repo_refetchable(&self) -> (refetchable: bool)
        ensures
            refetchable == (self.selected_repo() matches Some(i)
                && self.repos@[i as int].status.is_over()),
    {
        match self.selected_repo_index() {
            Some(i) => self.repos[i].status.is_terminal(),
            None => false,
        }
    }

    /// Whether any repo can be pulled again.
    pub fn any_refetchable(&self) -> (refetchable: bool)
        ensures
            refetchable == exists|i: int|
                0 <= i < self.repos@.len() && (#[trigger] self.repos@[i]).status.is_over(),
    {
        let mut i: usize = 0;
        while i < self.repos.len()
            invariant
                i <= self.repos@.len(),
                forall|j: int| 0 <= j < i ==> !(#[trigger] self.repos@[j]).status.is_over(),
            decreases self.repos@.len() - i,
        {
            if self.repos[i].status.is_terminal() {
                return true;
            }
            i = i + 1;
        }
        false
    }

    /// The cell lies on a row of the list, inside its border.
    pub open spec fn in_list(self, col: u16, row: u16) -> bool {
        let area = self.list_area;
        &&& area.width >= 2 && area.height >= 2
        &&& area.x < col < area.x + area.width - 1
        &&& area.y < row < area.y + area.height - 1
    }

    /// The item of the list in a row: the repos, a separator, and the Result.
    pub open spec fn item_at(self, col: u16, row: u16) -> Option<usize> {
        let item = row - (self.list_area.y + 1) + self.list_offset;
        if !self.in_list(col, row) {
            None
        } else if item < self.visible().len() {
            Some(item as usize)
        } else if item == self.visible().len() + 1 {
            Some(self.visible().len() as usize)
        } else {
            None
        }
    }

    /// Map mouse coordinates to a list selection index, or None for the
    /// separator row / outside the list. Result maps to `visible_len`.
    pub fn list_selection_at(&self, col: u16, row: u16) -> (item: Option<usize>)
        requires
            self.list_area.width >= 2 && self.list_area.height >= 2 ==> self.list_area.x
                + self.list_area.width - 1 <= u16::MAX && self.list_area.y + self.list_area.height
                - 1 <= u16::MAX,
            self.in_list(col, row) ==> row - (self.list_area.y + 1) + self.list_offset
                <= usize::MAX,
        ensures
            item == self.item_at(col, row),
    {
        let area = self.list_area;
        if area.width < 2 || area.height < 2 {
            return None;
        }
        let inner_x: u16 = area.x + 1;
        let inner_y: u16 = area.y + 1;
        let inner_right: u16 = inner_x + (area.width - 2);
        let inner_bottom: u16 = inner_y + (area.height - 2);
        if col < inner_x || col >= inner_right || row < inner_y || row >= inner_bottom {
            return None;
        }
        let row_idx: usize = (row - inner_y) as usize + self.list_offset;
        let visible_len: usize = self.visible_indices().len();
        if row_idx < visible_len {
            Some(row_idx)
        } else if row_idx - visible_len == 1 {
            Some(visible_len)
        } else {
            None
        }
    }
}

/// What has come to an end was updated, was up to date, was skipped or failed.
pub proof fn lemma_over_count(statuses: Seq<RepoStatus>)
    ensures
        status_count(statuses, |s: RepoStatus| s.is_over()) == status_count(
            statuses,
            |s: RepoStatus| s is Updated,
        ) + status_count(statuses, |s: RepoStatus| s is UpToDate) + status_count(
            statuses,
            |s: RepoStatus| s is Skipped,
        ) + status_count(statuses, |s: RepoStatus| s is Failed),
    decreases statuses.len(),
{
    reveal(Seq::filter);
    if statuses.len() > 0 {
        let rest = statuses.drop_last();
        lemma_over_count(rest);
        assert(statuses =~= rest.push(statuses.last()));
        rest.lemma_filter_push(statuses.last(), |s: RepoStatus| s.is_over());
        rest.lemma_filter_push(statuses.last(), |s: RepoStatus| s is Updated);
        rest.lemma_filter_push(statuses.last(), |s: RepoStatus| s is UpToDate);
        rest.lemma_filter_push(statuses.last(), |s: RepoStatus| s is Skipped);
        rest.lemma_filter_push(statuses.last(), |s: RepoStatus| s is Failed);
    }
}

// ---------------------------------------------------------------------------
// Laws

/// The repos that are shown keep their order, and each is shown once: those whose name holds the
/// filter, and every one without a filter or with an empty one.
pub proof fn law_shown_places_increase(names: Seq<Seq<char>>, filter: Option<Seq<char>>)
    requires
        names.len() <= usize::MAX,
    ensures
        ({
            let shown = shown_places(names, filter);
            &&& shown.len() <= names.len()
            &&& forall|k: int| 0 <= k < shown.len() ==> 0 <= #[trigger] shown[k] < names.len()
            &&& forall|k: int, l: int|
                0 <= k < l < shown.len() ==> #[trigger] shown[k] < #[trigger] shown[l]
            &&& forall|i: int|
                0 <= i < names.len() ==> (shown.contains(i as usize) <==> is_shown(
                    #[trigger] names[i],
                    filter,
                ))
            &&& filter is None || filter->0.len() == 0 ==> shown == all_places(names.len())
        }),
    decreases names.len(),
{
    let shown = shown_places(names, filter);
    match filter {
        None => {
            assert forall|i: int| 0 <= i < names.len() implies (shown.contains(i as usize)
                <==> is_shown(#[trigger] names[i], filter)) by {
                assert(shown[i] == i as usize);
            }
            assert forall|k: int, l: int| 0 <= k < l < shown.len() implies #[trigger] shown[k]
                < #[trigger] shown[l] by {
                assert(shown[k] == k as usize && shown[l] == l as usize);
            }
            assert forall|k: int| 0 <= k < shown.len() implies 0 <= #[trigger] shown[k]
                < names.len() by {
                assert(shown[k] == k as usize);
            }
        },
        Some(part) => {
            if names.len() > 0 {
                let rest = names.drop_last();
                law_shown_places_increase(rest, filter);
                let before = places_with(rest, part);
                assert forall|i: int| 0 <= i < names.len() implies (shown.contains(i as usize)
                    <==> is_shown(#[trigger] names[i], filter)) by {
                    if i < rest.len() {
                        assert(rest[i] == names[i]);
                        if before.contains(i as usize) {
                            let k = before.index_of(i as usize);
                            assert(shown[k] == before[k]);
                        }
                        if shown.contains(i as usize) {
                            let k = shown.index_of(i as usize);
                            assert(shown[k] == i as usize);
                            assert(before[k] == i as usize);
                        }
                    } else {
                        if has_text(names[i], part) {
                            assert(shown[shown.len() - 1] == i as usize);
                        } else if shown.contains(i as usize) {
                            let k = shown.index_of(i as usize);
                            assert(before[k] < rest.len());
                        }
                    }
                }
                if part.len() == 0 {
                    assert(crate::text::occurs_at(names.last(), part, 0)) by {
                        assert(names.last().subrange(0, 0) =~= part);
                    }
                    assert(shown =~= all_places(names.len()));
                }
            } else {
                assert(shown =~= all_places(0));
            }
        },
    }
}

/// The filter does not count letter case: names and filters that differ in the letter case of
/// ASCII alone show the same repos.
pub proof fn law_filter_ignores_letter_case(
    names: Seq<Seq<char>>,
    other_names: Seq<Seq<char>>,
    filter: Seq<char>,
    other_filter: Seq<char>,
)
    requires
        names.len() == other_names.len(),
        forall|i: int|
            0 <= i < names.len() ==> #[trigger] same_letters(names[i], other_names[i]),
        same_letters(filter, other_filter),
    ensures
        shown_places(
            names.map_values(|name: Seq<char>| ascii_lower(name)),
            Some(ascii_lower(filter)),
        ) == shown_places(
            other_names.map_values(|name: Seq<char>| ascii_lower(name)),
            Some(ascii_lower(other_filter)),
        ),
{
    lemma_lower_letters(filter, other_filter);
    let lower = |name: Seq<char>| ascii_lower(name);
    assert forall|i: int| 0 <= i < names.len() implies lower(names[i]) == lower(
        other_names[i],
    ) by {
        assert(same_letters(names[i], other_names[i]));
        lemma_lower_letters(names[i], other_names[i]);
    }
    assert(names.map_values(lower) =~= other_names.map_values(lower));
}

/// A buffer of at most `RING_BUFFER_CAPACITY` lines keeps the newest lines: what was in it and
/// what was pushed, but for the oldest ones beyond the capacity.
pub proof fn law_log_keeps_newest_lines(log: Seq<Seq<char>>, lines: Seq<Seq<char>>)
    requires
        log.len() <= RING_BUFFER_CAPACITY,
    ensures
        ({
            let all = log + lines;
            let after = logged_all(log, lines);
            &&& after.len() <= RING_BUFFER_CAPACITY
            &&& all.len() <= RING_BUFFER_CAPACITY ==> after == all
            &&& all.len() > RING_BUFFER_CAPACITY ==> after == all.skip(
                all.len() - RING_BUFFER_CAPACITY,
            )
        }),
    decreases lines.len(),
{
    let all = log + lines;
    if lines.len() == 0 {
        assert(all =~= log);
    } else {
        law_log_keeps_newest_lines(log, lines.drop_last());
        let before = log + lines.drop_last();
        let kept = logged_all(log, lines.drop_last());
        let after = logged_all(log, lines);
        assert(all =~= before.push(lines.last()));
        if all.len() <= RING_BUFFER_CAPACITY {
            assert(after =~= all);
        } else {
            assert(after =~= all.skip(all.len() - RING_BUFFER_CAPACITY));
        }
    }
}

/// Every repo counts once: what is queued or running and what has come to an end makes up all.
pub proof fn law_every_repo_counts_once(statuses: Seq<RepoStatus>)
    ensures
        status_count(statuses, |s: RepoStatus| s is Queued) + status_count(
            statuses,
            |s: RepoStatus| s is Running,
        ) + status_count(statuses, |s: RepoStatus| s.is_over()) == statuses.len(),
    decreases statuses.len(),
{
    reveal(Seq::filter);
    if statuses.len() > 0 {
        let rest = statuses.drop_last();
        law_every_repo_counts_once(rest);
        assert(statuses =~= rest.push(statuses.last()));
        rest.lemma_filter_push(statuses.last(), |s: RepoStatus| s is Queued);
        rest.lemma_filter_push(statuses.last(), |s: RepoStatus| s is Running);
        rest.lemma_filter_push(statuses.last(), |s: RepoStatus| s.is_over());
    }
}

/// The places that are handed out as failed are those of the failed repos, in order, and as many
/// as are counted.
pub proof fn law_failed_places(statuses: Seq<RepoStatus>)
    requires
        statuses.len() <= usize::MAX,
    ensures
        ({
            let failed = failed_places(statuses);
            &&& failed.len() == status_count(statuses, |s: RepoStatus| s is Failed)
            &&& forall|k: int|
                0 <= k < failed.len() ==> 0 <= #[trigger] failed[k] < statuses.len()
                    && statuses[failed[k] as int] is Failed
            &&& forall|k: int, l: int|
                0 <= k < l < failed.len() ==> #[trigger] failed[k] < #[trigger] failed[l]
        }),
    decreases statuses.len(),
{
    reveal(Seq::filter);
    if statuses.len() > 0 {
        let rest = statuses.drop_last();
        law_failed_places(rest);
        assert(statuses =~= rest.push(statuses.last()));
        rest.lemma_filter_push(statuses.last(), |s: RepoStatus| s is Failed);
        let before = failed_places(rest);
        let failed = failed_places(statuses);
        assert forall|k: int| 0 <= k < failed.len() implies 0 <= #[trigger] failed[k]
            < statuses.len() && statuses[failed[k] as int] is Failed by {
            if k < before.len() {
                assert(failed[k] == before[k]);
                assert(rest[before[k] as int] == statuses[before[k] as int]);
            }
        }
        assert forall|k: int, l: int| 0 <= k < l < failed.len() implies #[trigger] failed[k]
            < #[trigger] failed[l] by {
            assert(failed[k] == before[k]);
            if l < before.len() {
                assert(failed[l] == before[l]);
            }
        }
    }
}

/// Navigation keeps the selection on an item of the list, and changes nothing that is shown.
pub proof fn law_navigation_stays_in_list(app: AppState, selected: usize)
    requires
        selected <= app.visible().len(),
    ensures
        app.navigated(selected).selected <= app.navigated(selected).visible().len(),
        app.navigated(selected).visible() == app.visible(),
        !app.navigated(selected).result_overlay,
        app.navigated(selected).user_navigated,
{
}

/// Of two moves of the selection the later one counts: nothing is left of the first.
pub proof fn law_last_move_counts(app: AppState, first: usize, second: usize)
    ensures
        app.navigated(first).navigated(second) == app.navigated(second),
{
}

/// A click on a row of the list selects a repo that is shown, or the Result; the rows of two
/// items are different.
pub proof fn law_click_selects_an_item(app: AppState, col: u16, row: u16, other: u16)
    requires
        app.visible().len() <= usize::MAX,
    ensures
        app.item_at(col, row) matches Some(item) ==> item <= app.visible().len(),
        app.item_at(col, row) is Some && app.item_at(col, row) == app.item_at(col, other) ==> row
            == other,
{
}

} // verus!

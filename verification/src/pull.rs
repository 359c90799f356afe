//! Pulling: what a pull came to, and which branches can be fast-forwarded.

use vstd::prelude::*;
use vstd::string::*;

use crate::info::{BranchInfo, BranchView, WorktreeInfo, WorktreeView};
use crate::output::{told, CommandOutput, OutputView};
use crate::outside::{lowercase, to_lowercase};
use crate::text::{
    around_first, blank, contains, has_text, is_blank, same, split_once, trim, trimmed,
};

verus! {

/// Result of parsing git pull output to determine status.
#[derive(Debug, Clone, Copy, PartialEq, Eq, Structural)]
pub enum PullOutcome {
    AlreadyUpToDate,
    Updated,
    /// The current branch has no upstream configured — not an error, nothing to pull.
    NoUpstream,
    /// The remote throttled us (HTTP 429 / rate limit / SSH connection throttling). Distinct
    /// from a plain failure so the UI can back off concurrency and retry, not just mark failed.
    Throttled,
    Failed,
}

/// What the output of a throttled pull says.
pub open spec fn throttle_markers() -> Seq<Seq<char>> {
    seq![
        "too many requests"@,
        "rate limit"@,
        "returned error: 429"@,
        "http/2 429"@,
        "http 429"@,
        "error: 429"@,
        "kex_exchange_identification"@,
        "connection reset by peer"@,
        "connection closed by remote host"@,
    ]
}

/// What the output of a pull without anything to pull from says.
pub open spec fn upstream_markers() -> Seq<Seq<char>> {
    seq![
        "no tracking information"@,
        "no upstream"@,
        "There is no tracking information"@,
        "no such ref was fetched"@,
    ]
}

/// One of the markers stands in the text.
pub open spec fn has_any(text: Seq<char>, markers: Seq<Seq<char>>) -> bool {
    exists|i: int| 0 <= i < markers.len() && has_text(text, #[trigger] markers[i])
}

fn any_marker(text: &str, markers: &Vec<&str>) -> (found: bool)
    ensures
        found == has_any(text@, markers.deep_view()),
{
    let ghost all = markers.deep_view();
    let mut i: usize = 0;
    while i < markers.len()
        invariant
            i <= markers@.len(),
            all == markers.deep_view(),
            forall|j: int| 0 <= j < i ==> !has_text(text@, #[trigger] all[j]),
        decreases markers@.len() - i,
    {
        assert(all[i as int] == markers@[i as int]@);
        if contains(text, markers[i]) {
            return true;
        }
        i = i + 1;
    }
    false
}

/// Whether combined git output looks like remote throttling (rate limiting / connection
/// throttling) rather than a genuine failure. Asked of a lowercased copy.
pub fn looks_throttled(lower: &str) -> (throttled: bool)
    ensures
        throttled == has_any(lower@, throttle_markers()),
{
    // A bare "429" is no marker: it stands in progress output such as "429 objects".
    let markers = vec![
        "too many requests",
        "rate limit",
        "returned error: 429",
        "http/2 429",
        "http 429",
        "error: 429",
        "kex_exchange_identification",
        "connection reset by peer",
        "connection closed by remote host",
    ];
    assert(markers.deep_view() =~= throttle_markers());
    any_marker(lower, &markers)
}

/// Whether the output says that there is nothing to pull from: no upstream is configured, or the
/// branch that is tracked no longer exists.
pub fn lacks_upstream(output: &str) -> (lacking: bool)
    ensures
        lacking == has_any(output@, upstream_markers()),
{
    let markers = vec![
        "no tracking information",
        "no upstream",
        "There is no tracking information",
        "no such ref was fetched",
    ];
    assert(markers.deep_view() =~= upstream_markers());
    any_marker(output, &markers)
}

/// What a pull came to, by its output, the output in lower case, and its exit status.
pub open spec fn pull_outcome(output: Seq<char>, lower: Seq<char>, exit_success: bool) -> PullOutcome {
    if exit_success {
        if has_text(output, "Already up to date"@) {
            PullOutcome::AlreadyUpToDate
        } else {
            PullOutcome::Updated
        }
    } else if has_any(output, upstream_markers()) {
        PullOutcome::NoUpstream
    } else if has_any(lower, throttle_markers()) {
        PullOutcome::Throttled
    } else {
        PullOutcome::Failed
    }
}

/// What a pull came to, by its output, the output in lower case, and its exit status.
pub fn classify_with(output: &str, lower: &str, exit_success: bool) -> (outcome: PullOutcome)
    ensures
        outcome == pull_outcome(output@, lower@, exit_success),
{
    if !exit_success {
        if lacks_upstream(output) {
            return PullOutcome::NoUpstream;
        }
        if looks_throttled(lower) {
            return PullOutcome::Throttled;
        }
        return PullOutcome::Failed;
    }
    if contains(output, "Already up to date") {
        PullOutcome::AlreadyUpToDate
    } else {
        PullOutcome::Updated
    }
}

/// Parse combined stdout+stderr from `git pull` to determine outcome.
/// `exit_success` — did the process exit with code 0?
pub fn classify_pull_output(output: &str, exit_success: bool) -> (outcome: PullOutcome)
    ensures
        outcome == pull_outcome(output@, lowercase(output@), exit_success),
        vstd::utf8::is_ascii_chars(output@) ==> outcome == pull_outcome(
            output@,
            crate::outside::ascii_lower(output@),
            exit_success,
        ),
{
    let lower = to_lowercase(output);
    classify_with(output, lower.as_str(), exit_success)
}

// ---------------------------------------------------------------------------
// One branch

/// What a pull of one branch came to, or why it failed.
pub type PullResult = Result<PullOutcome, String>;

/// What a `PullResult` tells.
pub open spec fn pull_view(result: PullResult) -> Result<PullOutcome, Seq<char>> {
    match result {
        Ok(outcome) => Ok(outcome),
        Err(message) => Err(message@),
    }
}

/// What a fast-forward of a checked-out branch came to.
pub open spec fn merge_outcome(run: Result<OutputView, Seq<char>>) -> Result<
    PullOutcome,
    Seq<char>,
> {
    match run {
        Err(message) => Err(message),
        Ok(output) => {
            let combined = output.stdout + output.stderr;
            match pull_outcome(combined, lowercase(combined), output.success) {
                PullOutcome::Failed => Err(trimmed(combined)),
                outcome => Ok(outcome),
            }
        },
    }
}

/// Judges `git merge --ff-only`, which fast-forwards the checked-out branch to its upstream.
pub fn merge_result(run: &Result<CommandOutput, String>) -> (result: PullResult)
    ensures
        pull_view(result) == merge_outcome(told(*run)),
{
    match run {
        Err(message) => Err(message.clone()),
        Ok(output) => {
            let combined = output.stdout.clone().concat(output.stderr.as_str());
            match classify_pull_output(combined.as_str(), output.success) {
                PullOutcome::Failed => Err(trim(combined.as_str())),
                outcome => Ok(outcome),
            }
        },
    }
}

/// What a fetch of an upstream into a branch came to: one that advanced the branch reports it on
/// stderr, one that did not prints nothing.
pub open spec fn fetch_outcome(run: Result<OutputView, Seq<char>>) -> Result<
    PullOutcome,
    Seq<char>,
> {
    match run {
        Err(message) => Err(message),
        Ok(output) => if !output.success {
            Err(trimmed(output.stderr))
        } else if is_blank(output.stderr) {
            Ok(PullOutcome::AlreadyUpToDate)
        } else {
            Ok(PullOutcome::Updated)
        },
    }
}

/// Judges `git fetch <remote> <ref>:<local>`, which fast-forwards a branch that is not checked
/// out.
pub fn fetch_result(run: &Result<CommandOutput, String>) -> (result: PullResult)
    ensures
        pull_view(result) == fetch_outcome(told(*run)),
{
    match run {
        Err(message) => Err(message.clone()),
        Ok(output) => {
            if !output.success {
                Err(trim(output.stderr.as_str()))
            } else if blank(output.stderr.as_str()) {
                Ok(PullOutcome::AlreadyUpToDate)
            } else {
                Ok(PullOutcome::Updated)
            }
        },
    }
}

/// The arguments of git that fast-forward a branch that is not checked out. `upstream` is the
/// "origin/main"-style short name of what it tracks.
pub open spec fn fetch_command(
    dir: Seq<char>,
    upstream: Seq<char>,
    local: Seq<char>,
) -> Result<Seq<Seq<char>>, Seq<char>> {
    match around_first(upstream, "/"@) {
        Some((remote, remote_ref)) => Ok(
            seq!["-C"@, dir, "fetch"@, remote, remote_ref + ":"@ + local],
        ),
        None => Err("malformed upstream '"@ + upstream + "'"@),
    }
}

/// The arguments of git that fast-forward a branch that is not checked out: a fetch of its
/// upstream into it, which git refuses unless it is a fast-forward.
pub fn fetch_ff_args(dir: &str, upstream: &str, local: &str) -> (args: Result<Vec<String>, String>)
    ensures
        told(args) == fetch_command(dir@, upstream@, local@),
{
    match split_once(upstream, "/") {
        Some((remote, remote_ref)) => {
            let refspec = remote_ref.concat(":").concat(local);
            let ghost expected = seq!["-C"@, dir@, "fetch"@, remote@, refspec@];
            let args = vec![
                "-C".to_string(),
                dir.to_string(),
                "fetch".to_string(),
                remote,
                refspec,
            ];
            assert(args.deep_view() =~= expected);
            Ok(args)
        },
        None => Err("malformed upstream '".to_string().concat(upstream).concat("'")),
    }
}

/// The arguments of git that fast-forward what is checked out in `dir` to its upstream.
pub open spec fn merge_command(dir: Seq<char>) -> Seq<Seq<char>> {
    seq!["-C"@, dir, "merge"@, "--ff-only"@, "@{u}"@]
}

/// The arguments of git that fast-forward what is checked out in `dir` to its upstream.
pub fn merge_ff_args(dir: &str) -> (args: Vec<String>)
    ensures
        args.deep_view() == merge_command(dir@),
{
    let args = vec![
        "-C".to_string(),
        dir.to_string(),
        "merge".to_string(),
        "--ff-only".to_string(),
        "@{u}".to_string(),
    ];
    assert(args.deep_view() =~= merge_command(dir@));
    args
}

/// How a branch is to be fast-forwarded.
pub enum PullStep {
    /// The branch cannot be fast-forwarded and is left untouched.
    Skip,
    /// There is nothing to pull.
    UpToDate,
    /// Run git with these arguments, and judge it by `merge_result`.
    Merge(Vec<String>),
    /// Run git with these arguments, and judge it by `fetch_result`.
    Fetch(Vec<String>),
    /// The branch cannot be pulled, for this reason.
    Refuse(String),
}

/// What a `PullStep` holds.
pub enum StepView {
    Skip,
    UpToDate,
    Merge(Seq<Seq<char>>),
    Fetch(Seq<Seq<char>>),
    Refuse(Seq<char>),
}

impl DeepView for PullStep {
    type V = StepView;

    open spec fn deep_view(&self) -> StepView {
        match self {
            PullStep::Skip => StepView::Skip,
            PullStep::UpToDate => StepView::UpToDate,
            PullStep::Merge(args) => StepView::Merge(args.deep_view()),
            PullStep::Fetch(args) => StepView::Fetch(args.deep_view()),
            PullStep::Refuse(message) => StepView::Refuse(message@),
        }
    }
}

/// The first worktree that has the branch checked out.
pub open spec fn worktree_of(worktrees: Seq<WorktreeView>, branch: Seq<char>) -> Option<Seq<char>>
    decreases worktrees.len(),
{
    if worktrees.len() == 0 {
        None
    } else if worktrees[0].branch == branch {
        Some(worktrees[0].path)
    } else {
        worktree_of(worktrees.drop_first(), branch)
    }
}

/// The path of the first worktree that has the branch checked out.
pub fn find_worktree(worktrees: &Vec<WorktreeInfo>, branch: &str) -> (path: Option<String>)
    ensures
        path.deep_view() == worktree_of(worktrees.deep_view(), branch@),
{
    let ghost all = worktrees.deep_view();
    let mut i: usize = 0;
    assert(all.skip(0) =~= all);
    while i < worktrees.len()
        invariant
            i <= worktrees@.len(),
            all == worktrees.deep_view(),
            worktree_of(all, branch@) == worktree_of(all.skip(i as int), branch@),
        decreases worktrees@.len() - i,
    {
        assert(all[i as int] == worktrees@[i as int].deep_view());
        assert(all.skip(i as int).drop_first() =~= all.skip(i + 1));
        if same(worktrees[i].branch.as_str(), branch) {
            return Some(worktrees[i].path.clone());
        }
        i = i + 1;
    }
    None
}

/// How a branch that is known to lag behind is fast-forwarded: where it is checked out by a merge
/// there, elsewhere by a fetch into it.
pub open spec fn advance_step(
    repo: Seq<char>,
    worktrees: Seq<WorktreeView>,
    is_head: bool,
    branch: Seq<char>,
    upstream: Option<Seq<char>>,
) -> StepView {
    if is_head {
        StepView::Merge(merge_command(repo))
    } else {
        match worktree_of(worktrees, branch) {
            Some(path) => StepView::Merge(merge_command(path)),
            None => match upstream {
                Some(upstream) => match fetch_command(repo, upstream, branch) {
                    Ok(args) => StepView::Fetch(args),
                    Err(message) => StepView::Refuse(message),
                },
                None => StepView::Refuse("'"@ + branch + "' has no upstream"@),
            },
        }
    }
}

/// How a branch is fast-forwarded: where it is checked out by a merge there, elsewhere by a fetch
/// into it.
pub fn advance(
    repo: &str,
    worktrees: &Vec<WorktreeInfo>,
    is_head: bool,
    branch: &str,
    upstream: &Option<String>,
) -> (step: PullStep)
    ensures
        step.deep_view() == advance_step(
            repo@,
            worktrees.deep_view(),
            is_head,
            branch@,
            upstream.deep_view(),
        ),
{
    if is_head {
        return PullStep::Merge(merge_ff_args(repo));
    }
    if let Some(path) = find_worktree(worktrees, branch) {
        return PullStep::Merge(merge_ff_args(path.as_str()));
    }
    match upstream {
        Some(upstream) => match fetch_ff_args(repo, upstream.as_str(), branch) {
            Ok(args) => PullStep::Fetch(args),
            Err(message) => PullStep::Refuse(message),
        },
        None => PullStep::Refuse("'".to_string().concat(branch).concat("' has no upstream")),
    }
}

// ---------------------------------------------------------------------------
// Every branch

/// What `n` stands for where it is not known.
pub open spec fn or_zero(n: Option<u32>) -> u32 {
    match n {
        Some(n) => n,
        None => 0,
    }
}

/// How a branch takes part in a pull of every branch: without an upstream, or ahead of it, it is
/// left untouched; not behind it, there is nothing to pull.
pub open spec fn branch_step(
    repo: Seq<char>,
    worktrees: Seq<WorktreeView>,
    branch: BranchView,
) -> StepView {
    if branch.upstream is None || or_zero(branch.ahead) > 0 {
        StepView::Skip
    } else if or_zero(branch.behind) == 0 {
        StepView::UpToDate
    } else {
        advance_step(repo, worktrees, branch.is_head, branch.name, branch.upstream)
    }
}

/// How a branch takes part in a pull of every branch.
pub fn plan_branch(repo: &str, worktrees: &Vec<WorktreeInfo>, branch: &BranchInfo) -> (step:
    PullStep)
    ensures
        step.deep_view() == branch_step(repo@, worktrees.deep_view(), branch.deep_view()),
{
    if branch.upstream.is_none() {
        return PullStep::Skip;
    }
    let ahead = match branch.ahead {
        Some(ahead) => ahead,
        None => 0,
    };
    let behind = match branch.behind {
        Some(behind) => behind,
        None => 0,
    };
    if ahead > 0 {
        // Diverged or ahead-only — a fast-forward can't apply.
        return PullStep::Skip;
    }
    if behind == 0 {
        return PullStep::UpToDate;
    }
    advance(repo, worktrees, branch.is_head, branch.name.as_str(), &branch.upstream)
}

/// What became of one branch in a pull of every branch.
#[derive(Debug, Clone, Copy, PartialEq, Eq, Structural)]
pub enum BranchOutcome {
    Updated,
    UpToDate,
    Skipped,
    Failed,
}

/// What became of a branch that was pulled.
pub open spec fn outcome_of(result: Result<PullOutcome, Seq<char>>) -> BranchOutcome {
    match result {
        Ok(PullOutcome::Updated) => BranchOutcome::Updated,
        Ok(_) => BranchOutcome::UpToDate,
        Err(_) => BranchOutcome::Failed,
    }
}

/// What became of a branch that was pulled.
pub fn branch_outcome(result: &PullResult) -> (outcome: BranchOutcome)
    ensures
        outcome == outcome_of(pull_view(*result)),
{
    match result {
        Ok(PullOutcome::Updated) => BranchOutcome::Updated,
        Ok(_) => BranchOutcome::UpToDate,
        Err(_) => BranchOutcome::Failed,
    }
}

impl StepView {
    /// What becomes of the branch where no command is run for it.
    pub open spec fn decided(self) -> Option<BranchOutcome> {
        match self {
            StepView::Skip => Some(BranchOutcome::Skipped),
            StepView::UpToDate => Some(BranchOutcome::UpToDate),
            StepView::Refuse(_) => Some(BranchOutcome::Failed),
            StepView::Merge(_) | StepView::Fetch(_) => None,
        }
    }

    /// What the command that is run for the branch came to.
    pub open spec fn judged(self, run: Result<OutputView, Seq<char>>) -> Result<
        PullOutcome,
        Seq<char>,
    > {
        match self {
            StepView::Merge(_) => merge_outcome(run),
            _ => fetch_outcome(run),
        }
    }
}

impl PullStep {
    /// What becomes of the branch where no command is run for it.
    pub fn decided(&self) -> (outcome: Option<BranchOutcome>)
        ensures
            outcome == self.deep_view().decided(),
    {
        match self {
            PullStep::Skip => Some(BranchOutcome::Skipped),
            PullStep::UpToDate => Some(BranchOutcome::UpToDate),
            PullStep::Refuse(_) => Some(BranchOutcome::Failed),
            PullStep::Merge(_) | PullStep::Fetch(_) => None,
        }
    }

    /// What the command that is run for the branch came to.
    pub fn judge(&self, run: &Result<CommandOutput, String>) -> (result: PullResult)
        requires
            self is Merge || self is Fetch,
        ensures
            pull_view(result) == self.deep_view().judged(told(*run)),
    {
        match self {
            PullStep::Merge(_) => merge_result(run),
            _ => fetch_result(run),
        }
    }
}

/// Tally of a `pull_all_branches` pass over one repo.
#[derive(Debug, Clone, Copy, PartialEq, Eq, Structural)]
pub struct PullAllSummary {
    pub updated: u32,
    pub up_to_date: u32,
    pub skipped: u32,
    pub failed: u32,
}

impl Default for PullAllSummary {
    fn default() -> (summary: Self)
        ensures
            summary == (PullAllSummary { updated: 0, up_to_date: 0, skipped: 0, failed: 0 }),
    {
        PullAllSummary { updated: 0, up_to_date: 0, skipped: 0, failed: 0 }
    }
}

impl PullAllSummary {
    /// The branches that are counted.
    pub open spec fn total(self) -> int {
        self.updated + self.up_to_date + self.skipped + self.failed
    }

    /// How often `outcome` is counted.
    pub open spec fn count(self, outcome: BranchOutcome) -> u32 {
        match outcome {
            BranchOutcome::Updated => self.updated,
            BranchOutcome::UpToDate => self.up_to_date,
            BranchOutcome::Skipped => self.skipped,
            BranchOutcome::Failed => self.failed,
        }
    }

    /// Counts one more branch.
    pub fn record(&mut self, outcome: BranchOutcome)
        requires
            old(self).count(outcome) < u32::MAX,
        ensures
            final(self).count(outcome) == old(self).count(outcome) + 1,
            forall|other: BranchOutcome|
                other != outcome ==> final(self).count(other) == old(self).count(other),
            final(self).total() == old(self).total() + 1,
    {
        match outcome {
            BranchOutcome::Updated => {
                self.updated = self.updated + 1;
            },
            BranchOutcome::UpToDate => {
                self.up_to_date = self.up_to_date + 1;
            },
            BranchOutcome::Skipped => {
                self.skipped = self.skipped + 1;
            },
            BranchOutcome::Failed => {
                self.failed = self.failed + 1;
            },
        }
    }
}

/// How often `outcome` stands in a list.
pub open spec fn times(outcomes: Seq<BranchOutcome>, outcome: BranchOutcome) -> nat {
    outcomes.filter(|one: BranchOutcome| one == outcome).len()
}

/// The tally of what became of the branches: each is counted once.
pub fn tally(outcomes: &Vec<BranchOutcome>) -> (summary: PullAllSummary)
    requires
        outcomes@.len() <= u32::MAX,
    ensures
        forall|outcome: BranchOutcome| #[trigger]
            summary.count(outcome) == times(outcomes@, outcome),
        summary.total() == outcomes@.len(),
{
    let mut summary = PullAllSummary::default();
    let mut i: usize = 0;
    assert forall|outcome: BranchOutcome| #[trigger] summary.count(outcome) == times(
        outcomes@.take(0),
        outcome,
    ) by {
        reveal(Seq::filter);
    }
    while i < outcomes.len()
        invariant
            i <= outcomes@.len() <= u32::MAX,
            forall|outcome: BranchOutcome| #[trigger]
                summary.count(outcome) == times(outcomes@.take(i as int), outcome),
            summary.total() == i,
        decreases outcomes@.len() - i,
    {
        let ghost before = summary;
        let one = outcomes[i];
        assert(summary.count(one) <= summary.total());
        summary.record(one);
        assert forall|outcome: BranchOutcome| #[trigger] summary.count(outcome) == times(
            outcomes@.take(i + 1),
            outcome,
        ) by {
            assert(before.count(outcome) == times(outcomes@.take(i as int), outcome));
            assert(outcomes@.take(i + 1) =~= outcomes@.take(i as int).push(one));
            outcomes@.take(i as int).lemma_filter_push(
                one,
                |other: BranchOutcome| other == outcome,
            );
            assert(outcome != one ==> summary.count(outcome) == before.count(outcome));
        }
        i = i + 1;
    }
    assert(outcomes@.take(i as int) =~= outcomes@);
    summary
}

// ---------------------------------------------------------------------------
// Laws

/// The exit status decides first: a pull that failed never counts as a pull that worked, and one
/// that exited with success never counts as a failure, whatever the output says.
pub proof fn law_exit_status_decides(output: Seq<char>, lower: Seq<char>)
    ensures
        ({
            let failed = pull_outcome(output, lower, false);
            let worked = pull_outcome(output, lower, true);
            &&& failed == PullOutcome::Failed || failed == PullOutcome::Throttled || failed
                == PullOutcome::NoUpstream
            &&& worked == PullOutcome::Updated || worked == PullOutcome::AlreadyUpToDate
        }),
{
}

/// A missing upstream is told apart before throttling, and throttling before a plain failure.
pub proof fn law_failures_told_apart(output: Seq<char>, lower: Seq<char>)
    ensures
        pull_outcome(output, lower, false) == PullOutcome::NoUpstream <==> has_any(
            output,
            upstream_markers(),
        ),
        pull_outcome(output, lower, false) == PullOutcome::Throttled <==> has_any(
            lower,
            throttle_markers(),
        ) && !has_any(output, upstream_markers()),
        pull_outcome(output, lower, false) == PullOutcome::Failed <==> !has_any(
            output,
            upstream_markers(),
        ) && !has_any(lower, throttle_markers()),
{
}

/// A branch that is ahead of its upstream, or has none, is never touched: no command is run for
/// it, and it counts as skipped.
pub proof fn law_unpullable_branches_untouched(
    repo: Seq<char>,
    worktrees: Seq<WorktreeView>,
    branch: BranchView,
)
    requires
        branch.upstream is None || or_zero(branch.ahead) > 0,
    ensures
        branch_step(repo, worktrees, branch).decided() == Some(BranchOutcome::Skipped),
{
}

/// Git is run for a branch exactly if it has an upstream, is not ahead of it and is behind it; or
/// else the upstream's name is malformed.
pub proof fn law_pulled_branches_lag(repo: Seq<char>, worktrees: Seq<WorktreeView>, branch: BranchView)
    ensures
        ({
            let step = branch_step(repo, worktrees, branch);
            let lags = branch.upstream is Some && or_zero(branch.ahead) == 0 && or_zero(
                branch.behind,
            ) > 0;
            &&& (step is Merge || step is Fetch || step is Refuse) <==> lags
            &&& step is Refuse <==> lags && !branch.is_head && worktree_of(
                worktrees,
                branch.name,
            ) is None && !has_text(branch.upstream->0, "/"@)
        }),
{
    if branch.upstream is Some {
        crate::text::lemma_find_text(branch.upstream->0, "/"@);
    }
}

/// The upstream's remote and branch, and the local branch, can be read off the fetch that is run.
pub proof fn law_fetch_names_upstream(dir: Seq<char>, upstream: Seq<char>, local: Seq<char>)
    ensures
        fetch_command(dir, upstream, local) matches Ok(args) ==> args.len() == 5 && exists|
            remote_ref: Seq<char>,
        |
            upstream == args[3] + "/"@ + remote_ref && args[4] == #[trigger] (remote_ref + ":"@)
                + local,
        fetch_command(dir, upstream, local) is Ok <==> has_text(upstream, "/"@),
{
    crate::text::lemma_find_text(upstream, "/"@);
    reveal_strlit("/");
    if let Some((remote, remote_ref)) = around_first(upstream, "/"@) {
        let at = crate::text::find_text(upstream, "/"@)->0;
        assert(upstream.subrange(at, at + 1) == "/"@);
        assert(upstream =~= remote + "/"@ + remote_ref);
        assert((remote_ref + ":"@) + local == remote_ref + ":"@ + local);
    }
}

/// The branch of the upstream asks to be fetched by force: its name begins with a plus sign.
pub open spec fn forces(upstream: Seq<char>) -> bool {
    around_first(upstream, "/"@) matches Some((_, remote_ref)) && remote_ref.len() > 0
        && remote_ref[0] == '+'
}

/// A branch is only ever fast-forwarded, so no commit of it is lost: what is checked out by a
/// merge that does nothing else, and any other branch by a fetch without force.
pub proof fn law_pull_only_fast_forwards(
    repo: Seq<char>,
    worktrees: Seq<WorktreeView>,
    is_head: bool,
    branch: Seq<char>,
    upstream: Option<Seq<char>>,
)
    requires
        upstream matches Some(upstream) ==> !forces(upstream),
    ensures
        match advance_step(repo, worktrees, is_head, branch, upstream) {
            StepView::Merge(args) => args.len() == 5 && args[2] == "merge"@ && args[3]
                == "--ff-only"@ && args[4] == "@{u}"@,
            StepView::Fetch(args) => args.len() == 5 && args[2] == "fetch"@ && args[4].len() > 0
                && args[4][0] != '+',
            _ => true,
        },
{
    reveal_strlit(":");
}

} // verus!

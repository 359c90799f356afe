//! Laws of pulling: what each output comes to, where a branch is advanced, and what is counted.

use vstd::prelude::*;
use vstd::string::*;

use crate::info::{BranchView, WorktreeView};
use crate::output::OutputView;
use crate::outside::lowercase;
use crate::pull::{
    advance_step, branch_step, fetch_command, fetch_outcome, has_any, merge_outcome, outcome_of,
    pull_outcome, pull_view, throttle_markers, times, upstream_markers, worktree_of, BranchOutcome,
    PullAllSummary, PullOutcome, StepView,
};
use crate::text::{
    has_text, is_white, law_blank_text_is_white, law_parted_at_first_separator, trimmed,
};

verus! {

/// A pull that exited with success is up to date exactly if "Already up to date" stands somewhere
/// in its output, and has updated the repository otherwise. No other text of the output counts,
/// and the output in lower case does not either.
pub proof fn law_success_told_apart(output: Seq<char>, lower: Seq<char>)
    ensures
        pull_outcome(output, lower, true) == PullOutcome::AlreadyUpToDate <==> exists|
            before: Seq<char>,
            behind: Seq<char>,
        |
            output == #[trigger] (before + "Already up to date"@ + behind),
        pull_outcome(output, lower, true) == PullOutcome::Updated <==> !exists|
            before: Seq<char>,
            behind: Seq<char>,
        |
            output == #[trigger] (before + "Already up to date"@ + behind),
{
    crate::text::law_text_stands_between_sides(output, "Already up to date"@);
}

/// A pull that failed lacks an upstream exactly if its output says so in one of these ways.
pub proof fn law_missing_upstream_is_told(output: Seq<char>, lower: Seq<char>)
    ensures
        pull_outcome(output, lower, false) == PullOutcome::NoUpstream <==> {
            ||| has_text(output, "no tracking information"@)
            ||| has_text(output, "no upstream"@)
            ||| has_text(output, "There is no tracking information"@)
            ||| has_text(output, "no such ref was fetched"@)
        },
{
    let markers = upstream_markers();
    assert(markers.len() == 4);
    assert(has_text(output, markers[0]) || has_text(output, markers[1]) || has_text(
        output,
        markers[2],
    ) || has_text(output, markers[3]) <==> has_any(output, markers));
}

/// A pull that failed and does not lack an upstream was throttled exactly if its output in lower
/// case says so in one of these ways; any other failure is a plain one.
pub proof fn law_throttling_is_told(output: Seq<char>, lower: Seq<char>)
    requires
        pull_outcome(output, lower, false) != PullOutcome::NoUpstream,
    ensures
        ({
            let throttled = {
                ||| has_text(lower, "too many requests"@)
                ||| has_text(lower, "rate limit"@)
                ||| has_text(lower, "returned error: 429"@)
                ||| has_text(lower, "http/2 429"@)
                ||| has_text(lower, "http 429"@)
                ||| has_text(lower, "error: 429"@)
                ||| has_text(lower, "kex_exchange_identification"@)
                ||| has_text(lower, "connection reset by peer"@)
                ||| has_text(lower, "connection closed by remote host"@)
            };
            &&& throttled ==> pull_outcome(output, lower, false) == PullOutcome::Throttled
            &&& !throttled ==> pull_outcome(output, lower, false) == PullOutcome::Failed
        }),
{
    let markers = throttle_markers();
    assert(markers.len() == 9);
    assert(has_text(lower, markers[0]) || has_text(lower, markers[1]) || has_text(
        lower,
        markers[2],
    ) || has_text(lower, markers[3]) || has_text(lower, markers[4]) || has_text(lower, markers[5])
        || has_text(lower, markers[6]) || has_text(lower, markers[7]) || has_text(
        lower,
        markers[8],
    ) <==> has_any(lower, markers));
}

/// A merge is judged by what it wrote to both streams: one that exited with success never fails,
/// one that could not be started fails with the reason, and one that failed for no known reason
/// fails with what it wrote, without the white space around it.
pub proof fn law_merge_is_judged_by_both_streams(output: OutputView, reason: Seq<char>)
    ensures
        ({
            let written = output.stdout + output.stderr;
            let known = pull_outcome(written, lowercase(written), output.success);
            let judged = merge_outcome(Ok(output));
            &&& merge_outcome(Err(reason)) == Err::<PullOutcome, Seq<char>>(reason)
            &&& output.success ==> judged is Ok
            &&& judged is Ok <==> known != PullOutcome::Failed
            &&& judged matches Ok(outcome) ==> outcome == known
            &&& judged matches Err(message) ==> message == trimmed(written)
        }),
{
}

/// A fetch that exited with success advanced the branch exactly if it wrote anything but white
/// space to stderr; one that failed says why on stderr. What it wrote to stdout never counts.
pub proof fn law_fetch_is_judged_by_stderr(output: OutputView, reason: Seq<char>)
    ensures
        ({
            let judged = fetch_outcome(Ok(output));
            let reported = exists|i: int|
                0 <= i < output.stderr.len() && !is_white(#[trigger] output.stderr[i]);
            &&& fetch_outcome(Err(reason)) == Err::<PullOutcome, Seq<char>>(reason)
            &&& judged is Ok <==> output.success
            &&& judged matches Ok(outcome) ==> outcome == (if reported {
                PullOutcome::Updated
            } else {
                PullOutcome::AlreadyUpToDate
            })
            &&& judged matches Err(message) ==> message == trimmed(output.stderr)
        }),
{
    law_blank_text_is_white(output.stderr);
}

/// The upstream's name is parted at its first slash: the remote's name holds none, and what is
/// fetched from it, in the repository, is the rest of the name, into the local branch.
pub proof fn law_fetch_reads_remote_and_branch(
    dir: Seq<char>,
    upstream: Seq<char>,
    local: Seq<char>,
)
    ensures
        match fetch_command(dir, upstream, local) {
            Ok(args) => {
                &&& args.len() == 5
                &&& args[0] == "-C"@
                &&& args[1] == dir
                &&& args[2] == "fetch"@
                &&& !args[3].contains('/')
                &&& exists|remote_ref: Seq<char>|
                    upstream == args[3] + "/"@ + remote_ref && args[4] == #[trigger] (remote_ref
                        + ":"@) + local
            },
            Err(message) => !upstream.contains('/') && message == "malformed upstream '"@
                + upstream + "'"@,
        },
{
    crate::pull::law_fetch_names_upstream(dir, upstream, local);
    reveal_strlit("/");
    assert("/"@ =~= seq!['/']);
    law_parted_at_first_separator(upstream, "/"@);
    match fetch_command(dir, upstream, local) {
        Ok(args) => {
            if args[3].contains('/') {
                let i = args[3].index_of('/');
                let front = args[3] + "/"@.drop_last();
                assert(front.subrange(i, i + 1) =~= "/"@);
                assert(crate::text::occurs_at(front, "/"@, i));
            }
        },
        Err(_) => {
            if upstream.contains('/') {
                let i = upstream.index_of('/');
                assert(upstream.subrange(i, i + 1) =~= "/"@);
                assert(crate::text::occurs_at(upstream, "/"@, i));
            }
        },
    }
}

/// The worktree of a branch is the first in the list that has the branch checked out; there is
/// none exactly if none has.
pub proof fn law_worktree_has_the_branch(worktrees: Seq<WorktreeView>, branch: Seq<char>)
    ensures
        worktree_of(worktrees, branch) is None <==> forall|i: int|
            0 <= i < worktrees.len() ==> (#[trigger] worktrees[i]).branch != branch,
        worktree_of(worktrees, branch) matches Some(path) ==> exists|i: int|
            0 <= i < worktrees.len() && (#[trigger] worktrees[i]).branch == branch
                && worktrees[i].path == path && forall|j: int|
                0 <= j < i ==> (#[trigger] worktrees[j]).branch != branch,
    decreases worktrees.len(),
{
    if worktrees.len() > 0 {
        if worktrees[0].branch == branch {
            assert(worktrees[0].path == worktree_of(worktrees, branch)->0);
        } else {
            let rest = worktrees.drop_first();
            law_worktree_has_the_branch(rest, branch);
            match worktree_of(rest, branch) {
                None => {
                    assert forall|i: int| 0 <= i < worktrees.len() implies (
                    #[trigger] worktrees[i]).branch != branch by {
                        if i > 0 {
                            assert(rest[i - 1].branch != branch);
                        }
                    }
                },
                Some(path) => {
                    let i = choose|i: int|
                        0 <= i < rest.len() && (#[trigger] rest[i]).branch == branch
                            && rest[i].path == path && forall|j: int|
                            0 <= j < i ==> (#[trigger] rest[j]).branch != branch;
                    assert(worktrees[i + 1].branch == branch && worktrees[i + 1].path == path);
                    assert forall|j: int| 0 <= j < i + 1 implies (
                    #[trigger] worktrees[j]).branch != branch by {
                        if j > 0 {
                            assert(rest[j - 1].branch != branch);
                        }
                    }
                },
            }
        }
    }
}

/// A branch is advanced where it is checked out. The repository's own branch is merged in the
/// repository, whatever worktrees there are; any other branch that a worktree has checked out is
/// merged in the first such worktree; and a branch that is checked out nowhere is fetched into, in
/// the repository, or refused where it has no upstream to fetch.
pub proof fn law_branch_is_advanced_where_checked_out(
    repo: Seq<char>,
    worktrees: Seq<WorktreeView>,
    is_head: bool,
    branch: Seq<char>,
    upstream: Option<Seq<char>>,
)
    ensures
        ({
            let step = advance_step(repo, worktrees, is_head, branch, upstream);
            let elsewhere = exists|i: int|
                0 <= i < worktrees.len() && (#[trigger] worktrees[i]).branch == branch;
            &&& step is Merge <==> is_head || elsewhere
            &&& step matches StepView::Merge(args) ==> {
                &&& args.len() == 5
                &&& args[0] == "-C"@
                &&& is_head ==> args[1] == repo
                &&& !is_head ==> exists|i: int|
                    0 <= i < worktrees.len() && (#[trigger] worktrees[i]).branch == branch
                        && worktrees[i].path == args[1] && forall|j: int|
                        0 <= j < i ==> (#[trigger] worktrees[j]).branch != branch
                &&& args[2] == "merge"@
                &&& args[3] == "--ff-only"@
                &&& args[4] == "@{u}"@
            }
            &&& step is Fetch <==> !is_head && !elsewhere && upstream is Some
                && upstream->0.contains('/')
            &&& step matches StepView::Fetch(args) ==> {
                &&& args.len() == 5
                &&& args[0] == "-C"@
                &&& args[1] == repo
                &&& exists|remote_ref: Seq<char>|
                    upstream->0 == args[3] + "/"@ + remote_ref && args[4] == #[trigger] (remote_ref
                        + ":"@) + branch
            }
            &&& step is Refuse <==> !is_head && !elsewhere && (upstream is None
                || !upstream->0.contains('/'))
            &&& step matches StepView::Refuse(message) ==> message == match upstream {
                None => "'"@ + branch + "' has no upstream"@,
                Some(name) => "malformed upstream '"@ + name + "'"@,
            }
        }),
{
    law_worktree_has_the_branch(worktrees, branch);
    if let Some(name) = upstream {
        law_fetch_reads_remote_and_branch(repo, name, branch);
        if let Ok(args) = fetch_command(repo, name, branch) {
            reveal_strlit("/");
            let remote_ref = choose|remote_ref: Seq<char>|
                name == args[3] + "/"@ + remote_ref && args[4] == #[trigger] (remote_ref + ":"@)
                    + branch;
            assert(name[args[3].len() as int] == '/');
        }
    }
}

/// Which worktrees there are, and what the branch tracks, makes no difference to where the
/// repository's own branch is merged.
pub proof fn law_own_branch_is_merged_in_the_repo(
    repo: Seq<char>,
    worktrees: Seq<WorktreeView>,
    others: Seq<WorktreeView>,
    branch: Seq<char>,
    upstream: Option<Seq<char>>,
    other: Option<Seq<char>>,
)
    ensures
        advance_step(repo, worktrees, true, branch, upstream) == advance_step(
            repo,
            others,
            true,
            branch,
            other,
        ),
        advance_step(repo, worktrees, true, branch, upstream) matches StepView::Merge(args)
            && args.len() == 5 && args[1] == repo,
{
}

/// How a branch takes part in a pull of every branch, by what is known of it: one without an
/// upstream, or with a commit that the upstream lacks, is left alone; one that is not known to
/// lack a commit has nothing to pull; and any other is advanced.
pub proof fn law_branch_takes_part(
    repo: Seq<char>,
    worktrees: Seq<WorktreeView>,
    branch: BranchView,
)
    ensures
        ({
            let step = branch_step(repo, worktrees, branch);
            let alone = branch.upstream is None || (branch.ahead matches Some(n) && n >= 1);
            let lags = branch.behind matches Some(n) && n >= 1;
            &&& step is Skip <==> alone
            &&& step is UpToDate <==> !alone && !lags
            &&& !alone && lags ==> step == advance_step(
                repo,
                worktrees,
                branch.is_head,
                branch.name,
                branch.upstream,
            )
        }),
{
}

/// A pull of every branch runs each merge where the branch is checked out: in the repository for
/// its own branch, and otherwise in a worktree that has the branch. It never merges in a directory
/// that has another branch checked out.
pub proof fn law_merge_is_run_where_checked_out(
    repo: Seq<char>,
    worktrees: Seq<WorktreeView>,
    branch: BranchView,
)
    ensures
        branch_step(repo, worktrees, branch) matches StepView::Merge(args) ==> {
            &&& args.len() == 5
            &&& args[0] == "-C"@
            &&& branch.is_head ==> args[1] == repo
            &&& !branch.is_head ==> exists|i: int|
                0 <= i < worktrees.len() && (#[trigger] worktrees[i]).branch == branch.name
                    && worktrees[i].path == args[1]
        },
{
    law_branch_is_advanced_where_checked_out(
        repo,
        worktrees,
        branch.is_head,
        branch.name,
        branch.upstream,
    );
}

/// A branch counts as updated only where its pull updated it, as failed exactly where its pull
/// failed, and as up to date otherwise.
pub proof fn law_pull_counts_as_it_came_out(result: Result<PullOutcome, Seq<char>>)
    ensures
        outcome_of(result) == BranchOutcome::Updated <==> result == Ok::<PullOutcome, Seq<char>>(
            PullOutcome::Updated,
        ),
        outcome_of(result) == BranchOutcome::Failed <==> result is Err,
        outcome_of(result) != BranchOutcome::Skipped,
{
}

/// A step for which no command is run is decided at once; a merge and a fetch are judged by their
/// own runs.
pub proof fn law_steps_are_decided_or_judged(step: StepView, run: Result<OutputView, Seq<char>>)
    ensures
        step.decided() == Some(BranchOutcome::Skipped) <==> step is Skip,
        step.decided() == Some(BranchOutcome::UpToDate) <==> step is UpToDate,
        step.decided() == Some(BranchOutcome::Failed) <==> step is Refuse,
        step.decided() is None <==> step is Merge || step is Fetch,
        step is Merge ==> step.judged(run) == merge_outcome(run),
        step is Fetch ==> step.judged(run) == fetch_outcome(run),
{
}

/// One more branch adds one to how often its outcome stands in the list, and nothing to the
/// others; no branch counts for nothing.
pub proof fn law_each_branch_counts_once(
    outcomes: Seq<BranchOutcome>,
    last: BranchOutcome,
    outcome: BranchOutcome,
)
    ensures
        times(Seq::empty(), outcome) == 0,
        times(outcomes.push(last), outcome) == times(outcomes, outcome) + (if last == outcome {
            1nat
        } else {
            0nat
        }),
{
    let counted = |one: BranchOutcome| one == outcome;
    reveal(Seq::filter);
    assert(Seq::<BranchOutcome>::empty().filter(counted) =~= Seq::empty());
    assert(outcomes.push(last).drop_last() =~= outcomes);
    assert(outcomes.push(last).filter(counted) =~= if last == outcome {
        outcomes.filter(counted).push(last)
    } else {
        outcomes.filter(counted)
    });
}

/// A result of a pull tells what it came to, or its message.
pub proof fn law_pull_result_is_told_as_it_is(outcome: PullOutcome, message: String)
    ensures
        pull_view(Ok(outcome)) == Ok::<PullOutcome, Seq<char>>(outcome),
        pull_view(Err(message)) == Err::<PullOutcome, Seq<char>>(message@),
{
}

/// Each outcome is counted in its own field.
pub proof fn law_outcomes_have_their_own_counts(summary: PullAllSummary)
    ensures
        summary.count(BranchOutcome::Updated) == summary.updated,
        summary.count(BranchOutcome::UpToDate) == summary.up_to_date,
        summary.count(BranchOutcome::Skipped) == summary.skipped,
        summary.count(BranchOutcome::Failed) == summary.failed,
        summary.total() == summary.updated + summary.up_to_date + summary.skipped + summary.failed,
{
}

} // verus!

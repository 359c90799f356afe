use pull_all_tui::info::{BranchInfo, WorktreeInfo};
use pull_all_tui::output::{command_result, CommandOutput};
use pull_all_tui::pull::{
    advance, branch_outcome, classify_with, fetch_ff_args, fetch_result, find_worktree,
    lacks_upstream, looks_throttled, merge_ff_args, merge_result, plan_branch, tally,
    BranchOutcome, PullAllSummary, PullOutcome, PullStep,
};

fn ran(success: bool, stdout: &str, stderr: &str) -> Result<CommandOutput, String> {
    Ok(CommandOutput {
        success,
        status: "exit status".to_string(),
        stdout: stdout.to_string(),
        stderr: stderr.to_string(),
    })
}

fn branch(upstream: Option<&str>, ahead: Option<u32>, behind: Option<u32>) -> BranchInfo {
    BranchInfo {
        is_head: false,
        name: "feat".to_string(),
        upstream: upstream.map(String::from),
        ahead,
        behind,
        last_commit_rel: String::new(),
        subject: String::new(),
        commit_sha: String::new(),
        author: String::new(),
        stats: None,
        merge_base_short: None,
    }
}

#[test]
fn throttling_is_told_of_lower_case() {
    for marker in [
        "too many requests",
        "rate limit",
        "returned error: 429",
        "http/2 429",
        "http 429",
        "error: 429",
        "kex_exchange_identification",
        "connection reset by peer",
        "connection closed by remote host",
    ] {
        assert!(looks_throttled(&format!("fatal: {marker}!")));
        assert!(!looks_throttled(&format!("fatal: {}!", marker.to_uppercase())));
    }
    assert!(!looks_throttled("429 objects"));
}

#[test]
fn a_missing_upstream_is_told_first() {
    for marker in [
        "no tracking information",
        "no upstream",
        "There is no tracking information",
        "no such ref was fetched",
    ] {
        assert!(lacks_upstream(marker));
        let output = format!("{marker}\nrate limit\n");
        assert_eq!(classify_with(&output, &output, false), PullOutcome::NoUpstream);
    }
    assert!(!lacks_upstream("No Upstream"));
}

#[test]
fn the_exit_status_decides_first() {
    for output in ["", "Already up to date.", "rate limit", "no upstream", "boom"] {
        let failed = classify_with(output, output, false);
        assert!(failed != PullOutcome::Updated && failed != PullOutcome::AlreadyUpToDate);
        let worked = classify_with(output, output, true);
        assert!(worked == PullOutcome::Updated || worked == PullOutcome::AlreadyUpToDate);
    }
}

#[test]
fn a_merge_is_judged_by_all_it_wrote() {
    assert_eq!(merge_result(&ran(true, "Already up to date.", "")), Ok(PullOutcome::AlreadyUpToDate));
    assert_eq!(merge_result(&ran(true, "Updating a..b", "")), Ok(PullOutcome::Updated));
    assert_eq!(merge_result(&ran(false, "", "no upstream")), Ok(PullOutcome::NoUpstream));
    assert_eq!(merge_result(&ran(false, "", "rate limit")), Ok(PullOutcome::Throttled));
    assert_eq!(merge_result(&ran(false, " out\n", "err \n")), Err("out\nerr".to_string()));
    assert_eq!(merge_result(&Err("no git".to_string())), Err("no git".to_string()));
}

#[test]
fn a_fetch_is_judged_by_its_progress() {
    assert_eq!(fetch_result(&ran(true, "", " \n")), Ok(PullOutcome::AlreadyUpToDate));
    assert_eq!(fetch_result(&ran(true, "", "a..b main -> main")), Ok(PullOutcome::Updated));
    assert_eq!(fetch_result(&ran(false, "", " rejected \n")), Err("rejected".to_string()));
    assert_eq!(fetch_result(&Err("no git".to_string())), Err("no git".to_string()));
}

#[test]
fn a_fetch_names_the_upstream() {
    assert_eq!(
        fetch_ff_args("/r", "origin/feat/x", "x").unwrap(),
        vec!["-C", "/r", "fetch", "origin", "feat/x:x"]
    );
    assert_eq!(fetch_ff_args("/r", "main", "x"), Err("malformed upstream 'main'".to_string()));
    assert_eq!(merge_ff_args("/r"), vec!["-C", "/r", "merge", "--ff-only", "@{u}"]);
}

#[test]
fn the_first_worktree_of_a_branch_is_found() {
    let tree = |branch: &str, path: &str| WorktreeInfo {
        branch: branch.to_string(),
        path: path.to_string(),
    };
    let worktrees = vec![tree("a", "/1"), tree("b", "/2"), tree("b", "/3")];
    assert_eq!(find_worktree(&worktrees, "b").as_deref(), Some("/2"));
    assert_eq!(find_worktree(&worktrees, "c"), None);
}

#[test]
fn only_lagging_branches_are_pulled() {
    let none: Vec<WorktreeInfo> = vec![];
    assert!(matches!(plan_branch("/r", &none, &branch(None, None, Some(3))), PullStep::Skip));
    let ahead = branch(Some("origin/feat"), Some(1), Some(3));
    assert!(matches!(plan_branch("/r", &none, &ahead), PullStep::Skip));
    let current = branch(Some("origin/feat"), Some(0), Some(0));
    assert!(matches!(plan_branch("/r", &none, &current), PullStep::UpToDate));
    let gone = branch(Some("origin/feat"), None, None);
    assert!(matches!(plan_branch("/r", &none, &gone), PullStep::UpToDate));
    let mut lagging = branch(Some("origin/feat"), Some(0), Some(2));
    assert!(matches!(plan_branch("/r", &none, &lagging), PullStep::Fetch(_)));
    let trees = vec![WorktreeInfo { branch: "feat".to_string(), path: "/w".to_string() }];
    assert!(matches!(plan_branch("/r", &trees, &lagging), PullStep::Merge(_)));
    lagging.is_head = true;
    assert!(matches!(plan_branch("/r", &none, &lagging), PullStep::Merge(_)));
    let odd = branch(Some("local"), Some(0), Some(2));
    assert!(matches!(plan_branch("/r", &none, &odd), PullStep::Refuse(_)));
}

#[test]
fn a_step_says_what_becomes_of_its_branch() {
    assert_eq!(PullStep::Skip.decided(), Some(BranchOutcome::Skipped));
    assert_eq!(PullStep::UpToDate.decided(), Some(BranchOutcome::UpToDate));
    assert_eq!(PullStep::Refuse("no".to_string()).decided(), Some(BranchOutcome::Failed));
    assert_eq!(PullStep::Merge(vec![]).decided(), None);
    assert_eq!(PullStep::Fetch(vec![]).decided(), None);
    // A merge that writes nothing has updated; a fetch that writes nothing has not.
    let silent = ran(true, "", "");
    assert_eq!(PullStep::Merge(vec![]).judge(&silent), Ok(PullOutcome::Updated));
    assert_eq!(PullStep::Fetch(vec![]).judge(&silent), Ok(PullOutcome::AlreadyUpToDate));
    assert_eq!(branch_outcome(&Ok(PullOutcome::Updated)), BranchOutcome::Updated);
    assert_eq!(branch_outcome(&Ok(PullOutcome::Throttled)), BranchOutcome::UpToDate);
    assert_eq!(branch_outcome(&Err(String::new())), BranchOutcome::Failed);
}

#[test]
fn every_branch_is_counted_once() {
    let summary = tally(&vec![
        BranchOutcome::Updated,
        BranchOutcome::Failed,
        BranchOutcome::Skipped,
        BranchOutcome::Updated,
        BranchOutcome::UpToDate,
    ]);
    assert_eq!(summary, PullAllSummary { updated: 2, up_to_date: 1, skipped: 1, failed: 1 });
    assert_eq!(tally(&vec![]), PullAllSummary::default());
}

#[test]
fn a_command_succeeds_or_tells_why() {
    assert_eq!(command_result(&ran(true, "x", "warning")), Ok(()));
    assert_eq!(command_result(&ran(false, "x", " fatal: no \n")), Err("fatal: no".to_string()));
    assert_eq!(command_result(&Err("no git".to_string())), Err("no git".to_string()));
}

#[test]
fn output_is_decoded() {
    let output = CommandOutput::decode(
        true,
        "exit status: 0".to_string(),
        &"grün\n".as_bytes().to_vec(),
        &vec![b'a', 0xff, b'b'],
    );
    assert_eq!(output.stdout, "grün\n");
    assert_eq!(output.stderr, "a\u{fffd}b");
    assert!(output.success);
    assert_eq!(output.status, "exit status: 0");
}

#[test]
fn branches_are_only_fast_forwarded() {
    let merge = advance("/repo", &Vec::new(), true, "main", &Some("origin/main".to_string()));
    match merge {
        PullStep::Merge(args) => {
            assert_eq!(args, ["-C", "/repo", "merge", "--ff-only", "@{u}"]);
        }
        _ => panic!("a checked-out branch is merged"),
    }
    let fetch = advance("/repo", &Vec::new(), false, "main", &Some("origin/main".to_string()));
    match fetch {
        PullStep::Fetch(args) => assert!(!args[4].starts_with('+')),
        _ => panic!("any other branch is fetched"),
    }
}

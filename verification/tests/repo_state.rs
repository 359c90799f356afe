use pull_all_tui::app::{AppState, RepoState, RepoStatus};
use pull_all_tui::elapsed::Elapsed;
use pull_all_tui::git::PullOutcome;
use pull_all_tui::info::{BranchInfo, RepoDetails, WorktreeInfo};
use pull_all_tui::output::CommandOutput;
use pull_all_tui::pull::{PullAllSummary, PullStep};
use pull_all_tui::worker::{
    checkout_message, collect_stream, delete_message, next_pause, plan_row, pull_message,
    summary_message, worker_permits, worktree_entries, PageRow, PageRowKind, PullAction,
    FIRST_PAUSE_SECS, LONGEST_PAUSE_SECS,
};

fn repo() -> RepoState {
    RepoState::new("app".to_string(), "/work/app".to_string())
}

fn texts(list: &[&str]) -> Vec<String> {
    list.iter().map(|text| text.to_string()).collect()
}

fn ran(success: bool, stdout: &str, stderr: &str) -> Result<CommandOutput, String> {
    Ok(CommandOutput {
        success,
        status: if success { "exit status: 0" } else { "exit status: 1" }.to_string(),
        stdout: stdout.to_string(),
        stderr: stderr.to_string(),
    })
}

fn second() -> Elapsed {
    Elapsed { secs: 1, nanos: 0 }
}

#[test]
fn a_clean_repo_is_pulled() {
    let mut repo = repo();
    repo.begin_pull(second());
    assert_eq!((repo.start, repo.elapsed), (Some(second()), None));
    repo.note_branch(&ran(true, "main\n", ""));
    assert_eq!(repo.branch.as_deref(), Some("main"));
    match repo.check_tree(false, 30) {
        PullAction::Run(args) => {
            assert_eq!(args, vec!["30", "git", "-C", "/work/app", "pull", "--ff-only"])
        }
        _ => panic!("the repo is not pulled"),
    }
    assert_eq!(repo.status, RepoStatus::Queued);
    repo.note_process(Some(42));
    assert_eq!(repo.status, RepoStatus::Running { pid: 42 });
    repo.note_process(None);
    assert_eq!(repo.status, RepoStatus::Running { pid: 0 });
}

#[test]
fn an_unknown_branch_is_a_question_mark() {
    let mut repo = repo();
    repo.note_branch(&Err("no git".to_string()));
    assert_eq!(repo.branch.as_deref(), Some("?"));
    repo.note_branch(&ran(false, "", "fatal"));
    assert_eq!(repo.branch.as_deref(), Some("?"));
}

#[test]
fn a_dirty_repo_is_skipped() {
    let mut repo = repo();
    assert!(matches!(repo.check_tree(true, 30), PullAction::Done));
    assert_eq!(repo.status, RepoStatus::Skipped);
    assert_eq!(repo.elapsed, Some(Elapsed::zero()));
    assert_eq!(
        repo.log.lines().back().unwrap(),
        "⊘ Skipping app (has uncommitted changes)"
    );
}

#[test]
fn a_pull_comes_to_its_status() {
    for (outcome, status) in [
        (PullOutcome::AlreadyUpToDate, RepoStatus::UpToDate),
        (PullOutcome::NoUpstream, RepoStatus::UpToDate),
        (PullOutcome::Failed, RepoStatus::Failed),
    ] {
        let mut repo = repo();
        assert!(matches!(repo.settle_pull(outcome, second()), PullAction::Done));
        assert_eq!((repo.status, repo.elapsed), (status, Some(second())));
    }
}

#[test]
fn a_throttled_repo_waits_for_its_turn_again() {
    let mut repo = repo();
    repo.note_process(Some(1));
    assert!(matches!(repo.settle_pull(PullOutcome::Throttled, second()), PullAction::Requeue));
    assert_eq!((repo.status, repo.elapsed), (RepoStatus::Queued, None));
}

#[test]
fn an_update_ends_with_its_summary() {
    let mut repo = repo();
    repo.note_process(Some(1));
    let stdout = texts(&["Updating a..b", "Fast-forward"]);
    assert!(matches!(
        repo.finish_pull(&stdout, &vec![], true, second()),
        PullAction::AskStat
    ));
    assert_eq!(repo.status, RepoStatus::Running { pid: 1 });
    repo.finish_update(&Ok(" a.rs | 2 +-\n 1 file changed\n".to_string()), second());
    assert_eq!((repo.status, repo.elapsed), (RepoStatus::Updated, Some(second())));
    assert_eq!(repo.log.lines(), &texts(&[" a.rs | 2 +-", " 1 file changed"]));
}

#[test]
fn an_update_needs_no_summary() {
    let mut repo = repo();
    repo.finish_update(&Err("no git".to_string()), second());
    assert_eq!(repo.status, RepoStatus::Updated);
    assert!(repo.log.lines().is_empty());
}

#[test]
fn both_streams_are_judged() {
    let mut repo = repo();
    let stderr = texts(&["There is no tracking information for the current branch."]);
    repo.finish_pull(&vec![], &stderr, false, second());
    assert_eq!(repo.status, RepoStatus::UpToDate);
    let stdout = texts(&["Already up to date."]);
    repo.finish_pull(&stdout, &vec![], false, second());
    assert_eq!(repo.status, RepoStatus::Failed);
    repo.finish_pull(&stdout, &vec![], true, second());
    assert_eq!(repo.status, RepoStatus::UpToDate);
    // The throttle markers are told in any letter case.
    let throttled = texts(&["fatal: Too Many Requests"]);
    assert!(matches!(
        repo.finish_pull(&vec![], &throttled, false, second()),
        PullAction::Requeue
    ));
}

#[test]
fn a_stream_is_collected_line_by_line() {
    assert_eq!(collect_stream(&texts(&["a", "", "b"])), "a\n\nb\n");
    assert_eq!(collect_stream(&vec![]), "");
}

#[test]
fn lines_go_to_the_log() {
    let mut repo = repo();
    repo.note_line("remote: hi".to_string());
    assert_eq!(repo.log.lines(), &texts(&["remote: hi"]));
}

#[test]
fn answers_are_stored() {
    let mut repo = repo();
    repo.note_remote_url(Some("https://host/a".to_string()));
    repo.note_remote_url(None);
    assert_eq!(repo.remote_url.as_deref(), Some("https://host/a"));
    repo.details_loading = true;
    assert!(repo.lacks_details());
    repo.fill_details(RepoDetails::default());
    assert!(!repo.lacks_details() && repo.details_loading);
    repo.load_details(RepoDetails::default());
    assert!(!repo.details_loading);
    repo.load_diff(texts(&["+a"]));
    assert_eq!(repo.diff, Some(texts(&["+a"])));
}

#[test]
fn a_page_is_opened_and_refreshed() {
    let mut repo = repo();
    repo.page_loading = true;
    let worktree = || WorktreeInfo { branch: "b".to_string(), path: "/w/b".to_string() };
    repo.open_page(vec![], vec![worktree()]);
    let page = repo.page.as_ref().unwrap();
    assert!(!page.fetched && page.fetch_error.is_none() && repo.page_loading);
    repo.refresh_page(vec![], vec![worktree()], Err("offline".to_string()));
    let page = repo.page.as_ref().unwrap();
    assert!(page.fetched && !repo.page_loading);
    assert_eq!(page.fetch_error.as_deref(), Some("offline"));
    repo.refresh_page(vec![], vec![worktree()], Ok(()));
    assert!(repo.page.as_ref().unwrap().fetch_error.is_none());
}

#[test]
fn at_least_one_worker_runs() {
    assert_eq!(worker_permits(0), 1);
    assert_eq!(worker_permits(1), 1);
    assert_eq!(worker_permits(8), 8);
}

#[test]
fn worktrees_are_listed_as_found() {
    let entries = worktree_entries(&vec![("a".to_string(), "main".to_string())]);
    assert_eq!((entries[0].repo.as_str(), entries[0].branch.as_str()), ("a", "main"));
    let mut app = AppState::new(vec![], 1);
    app.load_worktrees(entries);
    assert!(app.worktrees_done);
    assert_eq!(app.worktrees.len(), 1);
}

#[test]
fn page_actions_tell_what_they_did() {
    assert_eq!(checkout_message(&Ok(()), "dev"), "Checked out dev");
    assert_eq!(checkout_message(&Err("no".to_string()), "dev"), "checkout failed: no");
    assert_eq!(delete_message(&Ok(()), "dev"), "Deleted dev");
    assert_eq!(delete_message(&Err("no".to_string()), "dev"), "delete failed: no");
    assert_eq!(pull_message(&Ok(PullOutcome::Updated), "dev"), "Pulled dev");
    assert_eq!(pull_message(&Ok(PullOutcome::NoUpstream), "dev"), "dev already up to date");
    assert_eq!(pull_message(&Err("no".to_string()), "dev"), "pull failed: no");
    let mut summary = PullAllSummary { updated: 1, up_to_date: 2, skipped: 3, failed: 0 };
    assert_eq!(summary_message(&summary), "Pulled: 1 updated, 2 up-to-date, 3 skipped");
    summary.failed = 4;
    assert_eq!(
        summary_message(&summary),
        "Pulled: 1 updated, 2 up-to-date, 3 skipped, 4 failed"
    );
}

#[test]
fn a_finished_page_action_reloads_the_page() {
    let mut app = AppState::new(vec![repo(), repo()], 1);
    app.repos[0].open_page(vec![], vec![]);
    app.repos[1].open_page(vec![], vec![]);
    app.finish_page_action(1, "Deleted dev".to_string());
    assert_eq!(app.repo_page_message.as_deref(), Some("Deleted dev"));
    assert!(app.repos[0].page.is_some() && app.repos[1].page.is_none());
}

fn row(kind: PageRowKind, branch: &str, is_head: bool, upstream: Option<&str>) -> PageRow {
    PageRow {
        kind,
        branch: branch.to_string(),
        path: "/w/tree".to_string(),
        is_head,
        upstream: upstream.map(String::from),
    }
}

#[test]
fn a_row_is_pulled_where_it_is_checked_out() {
    let mut repo = repo();
    let merge = |step: PullStep| match step {
        PullStep::Merge(args) => args,
        _ => panic!("no merge"),
    };
    let worktree_row = row(PageRowKind::Worktree, "x", false, None);
    assert_eq!(
        merge(plan_row(&repo, &worktree_row)),
        vec!["-C", "/w/tree", "merge", "--ff-only", "@{u}"]
    );
    let head = row(PageRowKind::Branch, "main", true, None);
    assert_eq!(
        merge(plan_row(&repo, &head)),
        vec!["-C", "/work/app", "merge", "--ff-only", "@{u}"]
    );
    let branches: Vec<BranchInfo> = vec![];
    let worktrees = vec![WorktreeInfo { branch: "x".to_string(), path: "/w/x".to_string() }];
    repo.open_page(branches, worktrees);
    let checked_out = row(PageRowKind::Branch, "x", false, Some("origin/x"));
    assert_eq!(
        merge(plan_row(&repo, &checked_out)),
        vec!["-C", "/w/x", "merge", "--ff-only", "@{u}"]
    );
    match plan_row(&repo, &row(PageRowKind::Branch, "y", false, Some("origin/feat/y"))) {
        PullStep::Fetch(args) => {
            assert_eq!(args, vec!["-C", "/work/app", "fetch", "origin", "feat/y:y"])
        }
        _ => panic!("no fetch"),
    }
    match plan_row(&repo, &row(PageRowKind::Branch, "z", false, None)) {
        PullStep::Refuse(message) => assert_eq!(message, "'z' has no upstream"),
        _ => panic!("not refused"),
    }
}

#[test]
fn a_throttled_repo_waits_twice_as_long_each_time() {
    let mut pauses = vec![FIRST_PAUSE_SECS];
    for _ in 0..7 {
        pauses.push(next_pause(pauses[pauses.len() - 1]));
    }
    assert_eq!(pauses, [1, 2, 4, 8, 16, 32, 60, 60]);
    assert_eq!(next_pause(30), 60);
    assert_eq!(next_pause(u64::MAX), LONGEST_PAUSE_SECS);
}

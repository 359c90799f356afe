use pull_all_tui::app::{
    AppState, LogBuffer, Rect, RepoState, RepoStatus, WorktreeEntry, RING_BUFFER_CAPACITY,
};

fn dashboard(names: &[&str]) -> AppState {
    let repos = names
        .iter()
        .map(|name| RepoState::new(name.to_string(), format!("/work/{name}")))
        .collect();
    AppState::new(repos, 4)
}

#[test]
fn a_new_repo_is_queued() {
    let repo = RepoState::new("a".to_string(), "/work/a".to_string());
    assert_eq!(repo.status, RepoStatus::Queued);
    assert!(repo.log.lines().is_empty());
    assert!(repo.auto_scroll);
    assert_eq!(repo.preview_scroll, 0);
    assert!(repo.start.is_none() && repo.elapsed.is_none() && repo.branch.is_none());
}

#[test]
fn terminal_statuses() {
    assert!(!RepoStatus::Queued.is_terminal());
    assert!(!RepoStatus::Running { pid: 1 }.is_terminal());
    for status in
        [RepoStatus::UpToDate, RepoStatus::Updated, RepoStatus::Skipped, RepoStatus::Failed]
    {
        assert!(status.is_terminal());
        assert_eq!(status.is_failed(), status == RepoStatus::Failed);
    }
    assert!(RepoStatus::Failed.is_retryable() && RepoStatus::Skipped.is_retryable());
    assert!(!RepoStatus::Updated.is_retryable() && !RepoStatus::Queued.is_retryable());
}

#[test]
fn the_log_keeps_the_newest_lines() {
    let mut log = LogBuffer::default();
    for i in 0..RING_BUFFER_CAPACITY + 5 {
        log.push(format!("line {i}"));
    }
    assert_eq!(log.lines().len(), RING_BUFFER_CAPACITY);
    assert_eq!(log.lines().front().unwrap(), "line 5");
    assert_eq!(log.lines().back().unwrap(), &format!("line {}", RING_BUFFER_CAPACITY + 4));
    log.clear();
    assert!(log.lines().is_empty());
}

#[test]
fn the_filter_ignores_letter_case() {
    let mut app = dashboard(&["Alpha", "beta", "ALPINE"]);
    assert_eq!(app.visible_indices(), vec![0, 1, 2]);
    app.filter = Some("aLp".to_string());
    assert_eq!(app.visible_indices(), vec![0, 2]);
    assert_eq!(app.list_len(), 3);
    app.filter = Some(String::new());
    assert_eq!(app.visible_indices(), vec![0, 1, 2]);
    app.filter = Some("zzz".to_string());
    assert_eq!(app.visible_indices(), Vec::<usize>::new());
    assert_eq!(app.list_len(), 1);
}

#[test]
fn the_filter_lowers_beyond_ascii() {
    let mut app = dashboard(&["ÄPFEL", "birnen"]);
    app.filter = Some("äpf".to_string());
    assert_eq!(app.visible_indices(), vec![0]);
}

#[test]
fn every_repo_counts_once() {
    let mut app = dashboard(&["a", "b", "c", "d", "e", "f", "g"]);
    for (repo, status) in app.repos.iter_mut().zip([
        RepoStatus::Queued,
        RepoStatus::Running { pid: 9 },
        RepoStatus::Updated,
        RepoStatus::UpToDate,
        RepoStatus::Skipped,
        RepoStatus::Failed,
        RepoStatus::Failed,
    ]) {
        repo.status = status;
    }
    assert_eq!(app.counts(), (1, 1, 1, 1, 1, 2));
    assert_eq!(app.done_count(), 5);
    assert_eq!(app.failed_repos(), vec![5, 6]);
    assert!(app.any_retryable() && app.any_refetchable());
    assert!(!app.selected_repo_retryable() && !app.selected_repo_refetchable());
    app.selected = 4;
    assert!(app.selected_repo_retryable() && app.selected_repo_refetchable());
    app.selected = 7;
    assert!(!app.selected_repo_retryable() && !app.selected_repo_refetchable());
}

#[test]
fn nothing_to_retry_at_the_start() {
    let app = dashboard(&["a"]);
    assert!(!app.any_retryable() && !app.any_refetchable());
    assert_eq!(app.failed_repos(), Vec::<usize>::new());
}

#[test]
fn navigation_moves_within_the_list() {
    let mut app = dashboard(&["a", "b"]);
    app.result_overlay = true;
    assert!(!app.nav_up());
    assert!(app.user_navigated && !app.result_overlay);
    assert!(app.nav_down());
    assert_eq!(app.selected_repo_index(), Some(1));
    assert!(app.nav_down());
    assert_eq!(app.selected, 2);
    assert_eq!(app.selected_repo_index(), None);
    assert!(!app.nav_down());
    assert!(app.nav_up());
    assert_eq!(app.selected, 1);
    app.nav_bottom();
    assert_eq!(app.selected, 2);
    app.nav_top();
    assert_eq!(app.selected, 0);
}

#[test]
fn the_selection_goes_by_what_is_shown() {
    let mut app = dashboard(&["a", "b", "ab"]);
    app.filter = Some("b".to_string());
    app.selected = 1;
    assert_eq!(app.selected_repo_index(), Some(2));
    app.nav_bottom();
    assert_eq!(app.selected, 2);
}

#[test]
fn a_click_selects_its_row() {
    let mut app = dashboard(&["a", "b"]);
    app.list_area = Rect { x: 2, y: 3, width: 10, height: 8 };
    assert_eq!(app.list_selection_at(3, 4), Some(0));
    assert_eq!(app.list_selection_at(10, 5), Some(1));
    // The separator is no item, and the Result stands below it.
    assert_eq!(app.list_selection_at(3, 6), None);
    assert_eq!(app.list_selection_at(3, 7), Some(2));
    assert_eq!(app.list_selection_at(3, 8), None);
    // The border is no row.
    assert_eq!(app.list_selection_at(2, 4), None);
    assert_eq!(app.list_selection_at(11, 4), None);
    assert_eq!(app.list_selection_at(3, 3), None);
    assert_eq!(app.list_selection_at(3, 10), None);
    app.list_offset = 1;
    assert_eq!(app.list_selection_at(3, 4), Some(1));
    app.list_area = Rect { x: 0, y: 0, width: 1, height: 9 };
    assert_eq!(app.list_selection_at(0, 1), None);
}

#[test]
fn a_new_dashboard_is_empty() {
    let app = dashboard(&[]);
    assert_eq!(app.max_jobs, 4);
    assert_eq!(app.selected, 0);
    assert_eq!(app.selected_repo_index(), None);
    assert!(app.worktrees.is_empty() && !app.worktrees_done && !app.all_done);
    assert_eq!(app.main_area, Rect::default());
    assert_eq!(app.group_cache_ttl_minutes, 1440);
}

#[test]
fn a_worktree_entry_is_copied_whole() {
    let entry = WorktreeEntry { repo: "a".to_string(), branch: "b".to_string() };
    let copy = entry.clone();
    assert_eq!((copy.repo.as_str(), copy.branch.as_str()), ("a", "b"));
}

use pull_all_tui::git::{
    count_name_status, normalize_remote_url, parse_ahead_behind, parse_branch_line,
    parse_commit_line, parse_track, parse_worktree_porcelain, relative_path, should_descend,
};

#[test]
fn normalize_remote_url_handles_all_forms() {
    assert_eq!(
        normalize_remote_url("git@github.com:org/repo.git").as_deref(),
        Some("https://github.com/org/repo")
    );
    assert_eq!(
        normalize_remote_url("https://github.com/org/repo.git").as_deref(),
        Some("https://github.com/org/repo")
    );
    assert_eq!(
        normalize_remote_url("https://github.com/org/repo").as_deref(),
        Some("https://github.com/org/repo")
    );
    assert_eq!(
        normalize_remote_url("ssh://git@github.com/org/repo.git").as_deref(),
        Some("https://github.com/org/repo")
    );
    assert_eq!(normalize_remote_url(""), None);
    assert_eq!(normalize_remote_url("/local/path/repo"), None);
}

#[test]
fn parse_commit_line_splits_us_fields() {
    let line =
        "a1b2c3d\u{1f}fix: handle empty input\u{1f}Ada Byron\u{1f}2 hours ago\u{1f}1700000000\n";
    let (hash, subject, author, rel, timestamp) = parse_commit_line(line);
    assert_eq!(hash, "a1b2c3d");
    assert_eq!(subject, "fix: handle empty input");
    assert_eq!(author, "Ada Byron");
    assert_eq!(rel, "2 hours ago");
    assert_eq!(timestamp, 1_700_000_000);
}

#[test]
fn parse_commit_line_tolerates_missing_fields() {
    let (hash, subject, author, rel, timestamp) = parse_commit_line("deadbee");
    assert_eq!(hash, "deadbee");
    assert_eq!(subject, "");
    assert_eq!(author, "");
    assert_eq!(rel, "");
    assert_eq!(timestamp, 0);
}

#[test]
fn parse_ahead_behind_reads_behind_then_ahead() {
    assert_eq!(parse_ahead_behind("3\t5\n"), (Some(3), Some(5)));
    assert_eq!(parse_ahead_behind("0\t0\n"), (Some(0), Some(0)));
    assert_eq!(parse_ahead_behind(""), (None, None));
}

#[test]
fn parse_track_covers_upstream_states() {
    // No upstream → unknown.
    assert_eq!(parse_track("", ""), (None, None));
    // Upstream present, in sync.
    assert_eq!(parse_track("origin/main", ""), (Some(0), Some(0)));
    // Deleted upstream.
    assert_eq!(parse_track("origin/gone", "gone"), (None, None));
    // One-sided and two-sided.
    assert_eq!(parse_track("origin/main", "ahead 2"), (Some(2), Some(0)));
    assert_eq!(parse_track("origin/main", "behind 3"), (Some(0), Some(3)));
    assert_eq!(parse_track("origin/main", "ahead 1, behind 4"), (Some(1), Some(4)));
}

#[test]
fn parse_branch_line_splits_us_fields() {
    let line = "*\u{1f}main\u{1f}origin/main\u{1f}ahead 1\u{1f}3 days ago\u{1f}init repo\u{1f}abc1234\u{1f}Ada";
    let branch = parse_branch_line(line).expect("parses");
    assert!(branch.is_head);
    assert_eq!(branch.name, "main");
    assert_eq!(branch.upstream.as_deref(), Some("origin/main"));
    assert_eq!((branch.ahead, branch.behind), (Some(1), Some(0)));
    assert_eq!(branch.last_commit_rel, "3 days ago");
    assert_eq!(branch.subject, "init repo");
    assert_eq!(branch.commit_sha, "abc1234");
    assert_eq!(branch.author, "Ada");
    assert_eq!(branch.stats, None);
}

#[test]
fn parse_branch_line_tolerates_missing_sha_author() {
    // Old six-field format (no sha/author) still parses, with empty extras.
    let line = "*\u{1f}main\u{1f}origin/main\u{1f}ahead 1\u{1f}3 days ago\u{1f}init repo";
    let branch = parse_branch_line(line).expect("parses");
    assert_eq!(branch.commit_sha, "");
    assert_eq!(branch.author, "");
}

#[test]
fn count_name_status_buckets_letters() {
    let stdout = "M\tsrc/a.rs\nA\tsrc/b.rs\nD\tsrc/c.rs\nR100\told.rs\tnew.rs\n?\tuntracked.rs\nC75\tx.rs\ty.rs\n";
    // M + R + C = 3 modified; A + ? = 2 added; D = 1 deleted.
    assert_eq!(count_name_status(stdout), (2, 3, 1));
}

#[test]
fn should_descend_skips_hidden_pruned_and_worktrees() {
    assert!(should_descend("projects"));
    assert!(should_descend("my-repo"));
    assert!(!should_descend(".git"));
    assert!(!should_descend(".cache"));
    assert!(!should_descend("node_modules"));
    assert!(!should_descend("target"));
    assert!(!should_descend("vendor"));
    assert!(!should_descend("my-repo.worktrees"));
}

#[test]
fn relative_path_renders_under_root() {
    let root = "/home/me/projects";
    assert_eq!(relative_path(root, "/home/me/projects/a"), "a");
    assert_eq!(
        relative_path(root, "/home/me/projects/personal/pull-all"),
        "personal/pull-all"
    );
    // Not under root → full path is kept.
    assert_eq!(relative_path(root, "/elsewhere/x"), "/elsewhere/x");
}

#[test]
fn parse_worktree_porcelain_skips_main_and_detached() {
    let output = "\
worktree /repo
HEAD aaaa
branch refs/heads/main

worktree /repo.worktrees/feature
HEAD bbbb
branch refs/heads/feature

worktree /repo.worktrees/detached
HEAD cccc
detached
";
    let worktrees = parse_worktree_porcelain(output, "/repo");
    assert_eq!(worktrees.len(), 1);
    assert_eq!(worktrees[0].branch, "feature");
    assert_eq!(worktrees[0].path, "/repo.worktrees/feature");
}

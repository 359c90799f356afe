use pull_all_tui::commands::{
    base_question, branch_args, branch_diff_args, branches_args, checkout_unless_dirty,
    clean_after, delete_branch_args, diff_stat_args, distance_args, drop_stash_args, fetch_args,
    file_question, full_status_args, heads_args, log_args, merge_base_args, pull_args,
    remote_url_args, remove_worktree_args, repo_diff_args, reset_args, stash_diff_args,
    stash_files_args, stash_labels_args, stash_list_args, stash_names_args, stash_ref,
    stash_untracked_args, status_args, worktrees_args, base_files_args, branch_files_args,
};
use pull_all_tui::git::{
    branch_stats, changed_files, count_entries, current_branch, discard_status, file_diff_lines,
    has_changes, local_branches, merge_base, new_file_diff_lines, normalize_remote_url,
    parse_ahead_behind, parse_branch_line, parse_commit_line, parse_name_status, parse_track,
    parse_worktree_porcelain, porcelain_fits, remote_url, repo_details, repo_diff_lines,
    stash_file_list, stash_files, stashes, uncommitted_files, worktrees, written, BaseSearch,
};
use pull_all_tui::info::{BranchStats, DiffFile, WorktreeInfo};
use pull_all_tui::output::CommandOutput;

fn ran(success: bool, stdout: &str, stderr: &str) -> Result<CommandOutput, String> {
    Ok(CommandOutput {
        success,
        status: "exit status".to_string(),
        stdout: stdout.to_string(),
        stderr: stderr.to_string(),
    })
}

fn failed() -> Result<CommandOutput, String> {
    ran(false, "M\tnot.read\n", " fatal: no \n")
}

fn missing() -> Result<CommandOutput, String> {
    Err("no git".to_string())
}

fn shown(files: &[DiffFile]) -> Vec<(&str, &str, bool)> {
    files.iter().map(|file| (file.status.as_str(), file.path.as_str(), file.untracked)).collect()
}

#[test]
fn the_branch_is_what_git_writes() {
    assert_eq!(current_branch(&ran(true, " main\n", "")), Ok("main".to_string()));
    assert_eq!(current_branch(&ran(true, "\n", "")), Ok("?".to_string()));
    assert_eq!(current_branch(&missing()), Err("no git".to_string()));
}

#[test]
fn a_status_that_writes_anything_is_dirty() {
    assert!(!has_changes(&vec![]));
    assert!(has_changes(&vec![b'\n']));
}

#[test]
fn entries_are_counted() {
    assert_eq!(count_entries(&ran(true, " M a\n\n  \n?? b\n", "")), 2);
    assert_eq!(count_entries(&ran(false, "x\n", "")), 1);
    assert_eq!(count_entries(&missing()), 0);
    assert_eq!(written(&ran(false, "x\n", "")), Ok("x\n".to_string()));
    assert_eq!(written(&missing()), Err("no git".to_string()));
}

#[test]
fn remotes_are_normalized() {
    assert_eq!(
        remote_url(&ran(true, "git@host:a/b.git\n", "")).as_deref(),
        Some("https://host/a/b")
    );
    assert_eq!(remote_url(&failed()), None);
    assert_eq!(remote_url(&missing()), None);
    assert_eq!(normalize_remote_url("git@host"), None);
    assert_eq!(normalize_remote_url("ssh://host/a").as_deref(), Some("https://host/a"));
    assert_eq!(normalize_remote_url(" http://host/a.git ").as_deref(), Some("https://host/a"));
    assert_eq!(normalize_remote_url("https://h/a.git.git").as_deref(), Some("https://h/a.git"));
    assert_eq!(
        normalize_remote_url("git@host:p"),
        normalize_remote_url("ssh://git@host/p")
    );
}

#[test]
fn a_commit_reads_back() {
    let line = "h\u{1f}\u{1f}a b\u{1f}now\u{1f} 12 \r\n";
    assert_eq!(
        parse_commit_line(line),
        ("h".to_string(), String::new(), "a b".to_string(), "now".to_string(), 12)
    );
    assert_eq!(parse_commit_line("h\u{1f}s\u{1f}a\u{1f}d\u{1f}-5").4, -5);
    assert_eq!(parse_commit_line("h\u{1f}s\u{1f}a\u{1f}d\u{1f}x").4, 0);
}

#[test]
fn distances_read_back() {
    assert_eq!(parse_ahead_behind("12\t34\n"), (Some(12), Some(34)));
    assert_eq!(parse_ahead_behind("12"), (None, None));
    assert_eq!(parse_ahead_behind("x 3"), (None, None));
    assert_eq!(parse_ahead_behind("error 42"), (None, None));
    assert_eq!(parse_ahead_behind("42 commits"), (None, None));
    assert_eq!(parse_track("origin/a", "ahead 12, behind 34"), (Some(12), Some(34)));
    assert_eq!(parse_track("origin/a", "ahead behind 3"), (Some(0), Some(0)));
    assert_eq!(parse_track("origin/a", "ahead"), (Some(0), Some(0)));
    assert_eq!(parse_track("origin/a", "ahead 1 ahead 2"), (Some(2), Some(0)));
    assert_eq!(parse_track(" ", "ahead 1"), (None, None));
    assert_eq!(parse_track("origin/a", " gone "), (None, None));
}

#[test]
fn a_branch_line_needs_six_fields_and_a_name() {
    assert!(parse_branch_line("*\u{1f}main\u{1f}\u{1f}\u{1f}now").is_none());
    assert!(parse_branch_line(" \u{1f}\u{1f}o/m\u{1f}\u{1f}now\u{1f}s").is_none());
    let branch = parse_branch_line(" \u{1f}dev\u{1f}\u{1f}\u{1f}now\u{1f}s\u{1f}c\u{1f}a").unwrap();
    assert!(!branch.is_head);
    assert_eq!(branch.upstream, None);
    assert_eq!((branch.ahead, branch.behind), (None, None));
}

#[test]
fn branches_are_listed_in_order() {
    let text = "*\u{1f}b\u{1f}\u{1f}\u{1f}now\u{1f}s\nbroken\n \u{1f}a\u{1f}\u{1f}\u{1f}now\u{1f}s\n";
    let branches = local_branches(&ran(true, text, ""));
    let names: Vec<&str> = branches.iter().map(|branch| branch.name.as_str()).collect();
    assert_eq!(names, vec!["b", "a"]);
    assert!(local_branches(&failed()).is_empty() && local_branches(&missing()).is_empty());
}

#[test]
fn worktrees_leave_out_the_main_checkout() {
    let text = "worktree /r/\nbranch refs/heads/main\n\nworktree /r.w/x\nbranch x\n\nworktree /bare\nbare\n";
    let found = worktrees(&ran(true, text, ""), "/r");
    assert_eq!(found.len(), 1);
    assert_eq!((found[0].branch.as_str(), found[0].path.as_str()), ("x", "/r.w/x"));
    assert!(worktrees(&failed(), "/r").is_empty());
    // A branch belongs to the entry that is being read.
    let odd = parse_worktree_porcelain("branch a\nworktree /x\nworktree /y\nbranch b\nbranch c\n", "/r");
    assert_eq!(odd.len(), 1);
    assert_eq!((odd[0].branch.as_str(), odd[0].path.as_str()), ("c", "/y"));
}

#[test]
fn changed_files_name_the_new_path() {
    let text = "M\ta\nR100\told\tnew\nA\n\tb\nD\t\nm\tc\n";
    assert_eq!(
        shown(&parse_name_status(text)),
        vec![("M", "a", false), ("R", "new", false), ("m", "c", false)]
    );
    assert!(changed_files(&failed()).is_empty() && changed_files(&missing()).is_empty());
}

#[test]
fn stats_count_the_changes() {
    let text = "a\tx\nD\ty\nT\tz\nX\tw\n\n";
    assert_eq!(
        branch_stats(&ran(true, text, "")),
        Some(BranchStats { added: 1, modified: 1, deleted: 1 })
    );
    assert_eq!(branch_stats(&failed()), None);
    assert_eq!(branch_stats(&missing()), None);
}

#[test]
fn untracked_files_of_a_stash_are_flagged() {
    let run = ran(true, "M\ta\nA\tb\n", "");
    assert_eq!(
        shown(&stash_file_list(&run, &ran(true, "b\nc\n", ""))),
        vec![("M", "a", false), ("A", "b", true)]
    );
    assert_eq!(
        shown(&stash_file_list(&run, &ran(false, "b\n", ""))),
        vec![("M", "a", false), ("A", "b", false)]
    );
    assert!(stash_file_list(&failed(), &missing()).is_empty());
}

#[test]
fn uncommitted_files_are_listed() {
    let text = " M a\nMM b c\n?? new\nR  old -> moved\nx\n    d\n";
    let run = ran(true, text, "");
    assert!(porcelain_fits(text));
    assert_eq!(
        shown(&uncommitted_files(&run)),
        vec![
            ("M", "a", false),
            ("M", "b c", false),
            ("?", "new", true),
            ("R", "moved", false),
            ("M", " d", false),
        ]
    );
    let (restore, delete) = discard_status(&run).unwrap();
    assert_eq!(restore, vec!["a", "b c", "moved", " d"]);
    assert_eq!(delete, vec!["new"]);
    assert!(uncommitted_files(&failed()).is_empty());
    assert_eq!(discard_status(&failed()), Err("fatal: no".to_string()));
    assert_eq!(discard_status(&missing()), Err("no git".to_string()));
}

#[test]
fn a_status_code_is_cut_by_bytes() {
    assert!(porcelain_fits("é a\n"));
    assert_eq!(shown(&uncommitted_files(&ran(true, "é ab\n", ""))), vec![("é", "ab", false)]);
    assert!(!porcelain_fits("✓ a\n"));
    assert!(!porcelain_fits("aé bc\n"));
    assert!(!porcelain_fits("abéc\n"));
    assert!(porcelain_fits("✓\nabc\n"));
}

#[test]
fn stashes_are_numbered() {
    let found = stashes(&ran(true, "WIP on a\n \nWIP on b\n", ""));
    let labels: Vec<(usize, &str)> =
        found.iter().map(|stash| (stash.index, stash.label.as_str())).collect();
    assert_eq!(labels, vec![(0, "WIP on a"), (1, "WIP on b")]);
    assert!(stashes(&failed()).is_empty());
    assert_eq!(
        stash_files(&ran(true, "a\n\n b\n", "")),
        Ok(vec!["a".to_string(), " b".to_string()])
    );
    assert_eq!(stash_files(&failed()), Err("fatal: no".to_string()));
    assert_eq!(stash_files(&missing()), Err("no git".to_string()));
}

#[test]
fn details_gather_the_answers() {
    let details = repo_details(
        &ran(true, "h\u{1f}s\u{1f}a\u{1f}d\u{1f}7\n", ""),
        &ran(true, "1\t2\n", ""),
        &ran(true, " M a\n", ""),
        &ran(true, "s0\ns1\n", ""),
        &ran(true, "main\n dev \nfeat\n\nfix\n", ""),
    );
    assert_eq!(details.commit_hash, "h");
    assert_eq!(details.commit_subject, "s");
    assert_eq!(details.commit_author, "a");
    assert_eq!(details.commit_rel_date, "d");
    assert_eq!(details.commit_timestamp, 7);
    assert_eq!((details.behind, details.ahead), (Some(1), Some(2)));
    assert_eq!((details.dirty_count, details.stash_count, details.branch_count), (1, 2, 2));
}

#[test]
fn unanswered_questions_leave_defaults() {
    let details = repo_details(&missing(), &failed(), &missing(), &missing(), &failed());
    assert_eq!(details.commit_hash, "");
    assert_eq!((details.behind, details.ahead), (None, None));
    assert_eq!((details.dirty_count, details.stash_count, details.branch_count), (0, 0, 0));
}

#[test]
fn diffs_have_placeholders() {
    assert_eq!(repo_diff_lines(&ran(false, "+a\n-b\n", "")), vec!["+a", "-b"]);
    assert_eq!(repo_diff_lines(&ran(true, "", "")), vec!["(no changes)"]);
    assert_eq!(repo_diff_lines(&missing()), vec!["(diff unavailable)"]);
    assert_eq!(new_file_diff_lines(&ran(false, "", "")), vec!["(new file)"]);
    assert_eq!(new_file_diff_lines(&ran(false, "+a", "")), vec!["+a"]);
    assert_eq!(new_file_diff_lines(&missing()), vec!["(diff unavailable)"]);
    assert_eq!(file_diff_lines(&ran(true, "+a\n", "")), vec!["+a"]);
    assert_eq!(file_diff_lines(&ran(true, "", "")), vec!["(no changes)"]);
    assert_eq!(file_diff_lines(&ran(false, "+a\n", " bad \n")), vec!["(diff failed: bad)"]);
    assert_eq!(file_diff_lines(&ran(false, "+a\n", " \n")), vec!["(diff unavailable)"]);
    assert_eq!(file_diff_lines(&missing()), vec!["(diff unavailable)"]);
}

#[test]
fn the_base_branch_is_searched_in_order() {
    let search = BaseSearch::RemoteHead;
    assert_eq!(
        base_question(&search, "/r").unwrap(),
        vec!["-C", "/r", "symbolic-ref", "--short", "refs/remotes/origin/HEAD"]
    );
    match search.answer(&ran(true, "origin/trunk\n", "")) {
        BaseSearch::Over(branch) => assert_eq!(branch.as_deref(), Some("origin/trunk")),
        _ => panic!("the search goes on"),
    }
    let mut search = BaseSearch::RemoteHead.answer(&ran(true, " \n", ""));
    let mut asked = Vec::new();
    while let Some(args) = base_question(&search, "/r") {
        asked.push(args.last().unwrap().clone());
        search = search.answer(&failed());
    }
    assert_eq!(
        asked,
        vec!["origin/main", "origin/master", "origin/dev", "main", "master", "dev"]
    );
    assert!(matches!(search.answer(&ran(true, "", "")), BaseSearch::Over(None)));
    match BaseSearch::Candidate(3).answer(&ran(true, "", "")) {
        BaseSearch::Over(branch) => assert_eq!(branch.as_deref(), Some("main")),
        _ => panic!("the search goes on"),
    }
}

#[test]
fn the_merge_base_falls_back_to_the_base() {
    assert_eq!(merge_base(&ran(true, "abc\n", ""), "main").as_deref(), Some("abc"));
    assert_eq!(merge_base(&failed(), "main").as_deref(), Some("main"));
    assert_eq!(merge_base(&missing(), "main"), None);
}

#[test]
fn questions_name_the_directory() {
    assert_eq!(branch_args("/r"), vec!["-C", "/r", "rev-parse", "--abbrev-ref", "HEAD"]);
    assert_eq!(status_args("/r"), vec!["-C", "/r", "status", "--porcelain"]);
    assert_eq!(
        full_status_args("/r"),
        vec!["-C", "/r", "status", "--porcelain", "--untracked-files=all"]
    );
    assert_eq!(
        diff_stat_args("/r"),
        vec!["-C", "/r", "diff", "--stat", "--color=always", "HEAD@{1}", "HEAD"]
    );
    assert_eq!(remote_url_args("/r"), vec!["-C", "/r", "remote", "get-url", "origin"]);
    assert_eq!(
        log_args("/r"),
        vec!["-C", "/r", "log", "-1", "--format=%h%x1f%s%x1f%an%x1f%cr%x1f%ct"]
    );
    assert_eq!(
        distance_args("/r"),
        vec!["-C", "/r", "rev-list", "--left-right", "--count", "@{u}...HEAD"]
    );
    assert_eq!(stash_list_args("/r"), vec!["-C", "/r", "stash", "list"]);
    assert_eq!(stash_labels_args("/r"), vec!["-C", "/r", "stash", "list", "--format=%gs"]);
    assert_eq!(
        heads_args("/r"),
        vec!["-C", "/r", "for-each-ref", "--format=%(refname:short)", "refs/heads"]
    );
    assert_eq!(branches_args("/r")[3..5], ["--sort=-committerdate", "--format"]);
    assert_eq!(branches_args("/r")[5].split("%1f").count(), 8);
    assert_eq!(worktrees_args("/r"), vec!["-C", "/r", "worktree", "list", "--porcelain"]);
    assert_eq!(repo_diff_args("/r", true), vec!["-C", "/r", "diff", "--color=always"]);
    assert_eq!(
        repo_diff_args("/r", false),
        vec!["-C", "/r", "diff", "--color=always", "HEAD@{1}", "HEAD"]
    );
    assert_eq!(merge_base_args("/r", "a", "b"), vec!["-C", "/r", "merge-base", "a", "b"]);
    assert_eq!(
        branch_files_args("/r", "a", "b"),
        vec!["-C", "/r", "diff", "--name-status", "a", "b"]
    );
    assert_eq!(base_files_args("/r", "a"), vec!["-C", "/r", "diff", "--name-status", "a"]);
    assert_eq!(
        branch_diff_args("/r", "a", "b", "p"),
        vec!["-C", "/r", "diff", "--color=always", "a", "b", "--", "p"]
    );
}

#[test]
fn stash_questions_name_the_entry() {
    assert_eq!(stash_ref(12), "stash@{12}");
    assert_eq!(
        stash_files_args("/r", 0),
        vec!["-C", "/r", "stash", "show", "--include-untracked", "--name-status", "stash@{0}"]
    );
    assert_eq!(
        stash_names_args("/r", 0),
        vec!["-C", "/r", "stash", "show", "--include-untracked", "--name-only", "stash@{0}"]
    );
    assert_eq!(
        stash_untracked_args("/r", 1),
        vec!["-C", "/r", "ls-tree", "-r", "--name-only", "stash@{1}^3"]
    );
    assert_eq!(drop_stash_args("/r", 2), vec!["-C", "/r", "stash", "drop", "stash@{2}"]);
    assert_eq!(
        stash_diff_args("/r", 0, "p", true),
        vec![
            "-C",
            "/r",
            "diff",
            "--color=always",
            "4b825dc642cb6eb9a060e54bf8d69288fbee4904",
            "stash@{0}^3",
            "--",
            "p"
        ]
    );
    assert_eq!(
        stash_diff_args("/r", 0, "p", false),
        vec!["-C", "/r", "diff", "--color=always", "stash@{0}^1", "stash@{0}", "--", "p"]
    );
}

#[test]
fn changes_are_named() {
    assert_eq!(fetch_args("/r"), vec!["-C", "/r", "fetch", "--all", "--quiet"]);
    assert_eq!(delete_branch_args("/r", "b", false), vec!["-C", "/r", "branch", "-d", "b"]);
    assert_eq!(delete_branch_args("/r", "b", true), vec!["-C", "/r", "branch", "-D", "b"]);
    assert_eq!(
        remove_worktree_args("/r", "/w", true),
        vec!["-C", "/r", "worktree", "remove", "--force", "/w"]
    );
    assert_eq!(
        remove_worktree_args("/r", "/w", false),
        vec!["-C", "/r", "worktree", "remove", "/w"]
    );
    assert_eq!(reset_args("/r"), vec!["-C", "/r", "reset", "--hard"]);
    assert_eq!(pull_args("/r", 30), vec!["30", "git", "-C", "/r", "pull", "--ff-only"]);
}

#[test]
fn a_dirty_tree_is_not_checked_out() {
    assert_eq!(
        checkout_unless_dirty("/r", "b", true),
        Err("working tree has uncommitted changes".to_string())
    );
    assert_eq!(
        checkout_unless_dirty("/r", "b", false).unwrap(),
        vec!["-C", "/r", "checkout", "b"]
    );
}

#[test]
fn a_failed_reset_ends_a_discard() {
    assert_eq!(clean_after("/r", &ran(true, "", "")).unwrap(), vec!["-C", "/r", "clean", "-fd"]);
    assert_eq!(clean_after("/r", &failed()), Err("fatal: no".to_string()));
    assert_eq!(clean_after("/r", &missing()), Err("no git".to_string()));
}

#[test]
fn a_file_is_diffed_or_shown_whole() {
    let whole = file_question("/r", &None, "a/b", true);
    assert_eq!(
        whole.args,
        vec!["-C", "/r", "diff", "--no-index", "--color=always", "/dev/null", "/r/a/b"]
    );
    assert_eq!(whole.answer(&ran(false, "", "")), vec!["(new file)"]);
    let diff = file_question("/r", &None, "a", false);
    assert_eq!(diff.args, vec!["-C", "/r", "diff", "--color=always", "HEAD", "--", "a"]);
    assert_eq!(diff.answer(&ran(true, "", "")), vec!["(no changes)"]);
    let based = file_question("/r", &Some("abc".to_string()), "a", false);
    assert_eq!(based.args[4], "abc");
}

#[test]
fn a_commit_before_the_epoch_reads_back() {
    let line = "abc\u{1f}subject\u{1f}Ada\u{1f}60 years ago\u{1f}-315619200\n";
    assert_eq!(parse_commit_line(line).4, -315_619_200);
}

#[test]
fn lists_are_copied_whole() {
    let line = "*\u{1f}main\u{1f}origin/main\u{1f}behind 2\u{1f}now\u{1f}subject\u{1f}abc\u{1f}Ada";
    let branch = parse_branch_line(line).unwrap();
    assert_eq!(format!("{:?}", branch.clone()), format!("{branch:?}"));
    let worktree = WorktreeInfo { branch: "a".to_string(), path: "/a".to_string() };
    let copy = worktree.clone();
    assert_eq!((copy.branch, copy.path), (worktree.branch, worktree.path));
}

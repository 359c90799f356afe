use pull_all_tui::path::{path_parts, sort_paths};
use pull_all_tui::scan::{look, should_descend, sort_worktrees, worktree_owner, Look, PRUNE_DIRS};

#[test]
fn every_pruned_name_is_skipped() {
    for name in PRUNE_DIRS {
        assert!(!should_descend(name));
    }
    assert_eq!(PRUNE_DIRS.len(), 11);
    assert!(should_descend("vendored"));
    assert!(should_descend("Target"));
    assert!(should_descend(""));
    assert!(!should_descend("a.worktrees.old"));
}

#[test]
fn the_root_is_never_a_repo() {
    assert_eq!(look(0, 16, true), Look::Enter);
    assert_eq!(look(0, 0, true), Look::Leave);
    assert_eq!(look(1, 16, true), Look::Found);
    assert_eq!(look(1, 1, true), Look::Found);
    assert_eq!(look(1, 1, false), Look::Leave);
    assert_eq!(look(1, 2, false), Look::Enter);
}

/// A directory: its name, whether it holds `.git`, and its directories.
struct Dir(&'static str, bool, Vec<Dir>);

fn walk(dir: &Dir, path: &str, depth: usize, max_depth: usize, found: &mut Vec<String>) {
    match look(depth, max_depth, dir.1) {
        Look::Found => found.push(path.to_string()),
        Look::Leave => {}
        Look::Enter => {
            for child in &dir.2 {
                if should_descend(child.0) {
                    let below = if path.is_empty() {
                        child.0.to_string()
                    } else {
                        format!("{path}/{}", child.0)
                    };
                    walk(child, &below, depth + 1, max_depth, found);
                }
            }
        }
    }
}

fn tree() -> Dir {
    Dir(
        "root",
        true,
        vec![
            Dir("a", true, vec![Dir("nested", true, vec![])]),
            Dir("b", false, vec![Dir("c", true, vec![])]),
            Dir("d", false, vec![Dir("e", false, vec![Dir("f", true, vec![])])]),
            Dir("node_modules", false, vec![Dir("dep", true, vec![])]),
            Dir(".hidden", false, vec![Dir("repo", true, vec![])]),
            Dir("g.worktrees", false, vec![Dir("feat", true, vec![])]),
        ],
    )
}

#[test]
fn the_scan_finds_the_outermost_repos() {
    let mut found = Vec::new();
    walk(&tree(), "", 0, 16, &mut found);
    assert_eq!(found, vec!["a", "b/c", "d/e/f"]);
}

#[test]
fn the_scan_stops_at_its_depth() {
    let mut found = Vec::new();
    walk(&tree(), "", 0, 1, &mut found);
    assert_eq!(found, vec!["a"]);
    found.clear();
    walk(&tree(), "", 0, 2, &mut found);
    assert_eq!(found, vec!["a", "b/c"]);
}

#[test]
fn the_list_of_a_scan_ascends_and_grows_with_its_depth() {
    let list = |max_depth: usize| {
        let mut found = Vec::new();
        walk(&tree(), "/root", 0, max_depth, &mut found);
        found.reverse();
        sort_paths(&found)
    };
    assert!(list(0).is_empty());
    assert_eq!(list(3), ["/root/a", "/root/b/c", "/root/d/e/f"]);
    for depth in 0..4 {
        let few = list(depth);
        let many = list(depth + 1);
        for (i, path) in few.iter().enumerate() {
            assert!(many.contains(path));
            assert!((3..=2 + depth).contains(&path_parts(path).len()));
            for other in &few[i + 1..] {
                assert!(std::path::Path::new(path) < std::path::Path::new(other));
                assert!(!path_parts(other).starts_with(&path_parts(path)));
            }
        }
    }
}

#[test]
fn worktrees_belong_to_the_repo_before_the_suffix() {
    assert_eq!(worktree_owner("app.worktrees").as_deref(), Some("app"));
    assert_eq!(worktree_owner("app.worktrees.worktrees").as_deref(), Some("app"));
    assert_eq!(worktree_owner(".worktrees").as_deref(), Some(""));
    assert_eq!(worktree_owner("app"), None);
}

#[test]
fn worktrees_are_sorted_by_repo_and_branch() {
    let pair = |repo: &str, branch: &str| (repo.to_string(), branch.to_string());
    let found = vec![pair("b", "x"), pair("a", "z"), pair("a", "y"), pair("a", "Y"), pair("b", "x")];
    let mut expected = found.clone();
    expected.sort();
    assert_eq!(sort_worktrees(&found), expected);
    assert_eq!(sort_worktrees(&vec![]), vec![]);
}

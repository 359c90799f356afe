//! The commands that are run: the arguments of git for each question and each change.
//! `dir` is the directory of the repository.

use vstd::prelude::*;
use vstd::string::*;

use crate::git::{
    diff_told, file_diff_lines, file_diff_told, new_file_diff_lines, BaseSearch, BaseView,
    BASE_CANDIDATES,
};
use crate::number::{decimal, decimal_text};
use crate::output::{command_result, step_of, told, CommandOutput};
use crate::path::{join_path, joined};

verus! {

/// Asks for the branch that is checked out.
pub fn branch_args(dir: &str) -> (args: Vec<String>)
    ensures
        args.deep_view() == seq!["-C"@, dir@, "rev-parse"@, "--abbrev-ref"@, "HEAD"@],
{
    vec![
        "-C".to_string(),
        dir.to_string(),
        "rev-parse".to_string(),
        "--abbrev-ref".to_string(),
        "HEAD".to_string(),
    ]
}

/// Asks for the uncommitted changes.
pub fn status_args(dir: &str) -> (args: Vec<String>)
    ensures
        args.deep_view() == seq!["-C"@, dir@, "status"@, "--porcelain"@],
{
    vec!["-C".to_string(), dir.to_string(), "status".to_string(), "--porcelain".to_string()]
}

/// Asks for the uncommitted changes, with every untracked file.
pub fn full_status_args(dir: &str) -> (args: Vec<String>)
    ensures
        args.deep_view() == seq!["-C"@, dir@, "status"@, "--porcelain"@, "--untracked-files=all"@],
{
    vec![
        "-C".to_string(),
        dir.to_string(),
        "status".to_string(),
        "--porcelain".to_string(),
        "--untracked-files=all".to_string(),
    ]
}

/// Asks for the summary of what the last pull changed.
pub fn diff_stat_args(dir: &str) -> (args: Vec<String>)
    ensures
        args.deep_view() == seq![
            "-C"@,
            dir@,
            "diff"@,
            "--stat"@,
            "--color=always"@,
            "HEAD@{1}"@,
            "HEAD"@,
        ],
{
    vec![
        "-C".to_string(),
        dir.to_string(),
        "diff".to_string(),
        "--stat".to_string(),
        "--color=always".to_string(),
        "HEAD@{1}".to_string(),
        "HEAD".to_string(),
    ]
}

/// Asks for the address of the `origin` remote.
pub fn remote_url_args(dir: &str) -> (args: Vec<String>)
    ensures
        args.deep_view() == seq!["-C"@, dir@, "remote"@, "get-url"@, "origin"@],
{
    vec![
        "-C".to_string(),
        dir.to_string(),
        "remote".to_string(),
        "get-url".to_string(),
        "origin".to_string(),
    ]
}

/// Asks for the last commit.
pub fn log_args(dir: &str) -> (args: Vec<String>)
    ensures
        args.deep_view() == seq![
            "-C"@,
            dir@,
            "log"@,
            "-1"@,
            "--format=%h%x1f%s%x1f%an%x1f%cr%x1f%ct"@,
        ],
{
    vec![
        "-C".to_string(),
        dir.to_string(),
        "log".to_string(),
        "-1".to_string(),
        "--format=%h%x1f%s%x1f%an%x1f%cr%x1f%ct".to_string(),
    ]
}

/// Asks how far the branch is behind its upstream and ahead of it.
pub fn distance_args(dir: &str) -> (args: Vec<String>)
    ensures
        args.deep_view() == seq![
            "-C"@,
            dir@,
            "rev-list"@,
            "--left-right"@,
            "--count"@,
            "@{u}...HEAD"@,
        ],
{
    vec![
        "-C".to_string(),
        dir.to_string(),
        "rev-list".to_string(),
        "--left-right".to_string(),
        "--count".to_string(),
        "@{u}...HEAD".to_string(),
    ]
}

/// Asks for the stash entries.
pub fn stash_list_args(dir: &str) -> (args: Vec<String>)
    ensures
        args.deep_view() == seq!["-C"@, dir@, "stash"@, "list"@],
{
    vec!["-C".to_string(), dir.to_string(), "stash".to_string(), "list".to_string()]
}

/// Asks for the labels of the stash entries.
pub fn stash_labels_args(dir: &str) -> (args: Vec<String>)
    ensures
        args.deep_view() == seq!["-C"@, dir@, "stash"@, "list"@, "--format=%gs"@],
{
    vec![
        "-C".to_string(),
        dir.to_string(),
        "stash".to_string(),
        "list".to_string(),
        "--format=%gs".to_string(),
    ]
}

/// Asks for the names of the local branches.
pub fn heads_args(dir: &str) -> (args: Vec<String>)
    ensures
        args.deep_view() == seq![
            "-C"@,
            dir@,
            "for-each-ref"@,
            "--format=%(refname:short)"@,
            "refs/heads"@,
        ],
{
    vec![
        "-C".to_string(),
        dir.to_string(),
        "for-each-ref".to_string(),
        "--format=%(refname:short)".to_string(),
        "refs/heads".to_string(),
    ]
}

/// Asks for the local branches, most recent first.
pub fn branches_args(dir: &str) -> (args: Vec<String>)
    ensures
        args.deep_view() == seq![
            "-C"@,
            dir@,
            "for-each-ref"@,
            "--sort=-committerdate"@,
            "--format"@,
            "%(HEAD)%1f%(refname:short)%1f%(upstream:short)%1f%(upstream:track,nobracket)%1f%(committerdate:relative)%1f%(contents:subject)%1f%(objectname:short)%1f%(authorname)"@,
            "refs/heads"@,
        ],
{
    vec![
        "-C".to_string(),
        dir.to_string(),
        "for-each-ref".to_string(),
        "--sort=-committerdate".to_string(),
        "--format".to_string(),
        "%(HEAD)%1f%(refname:short)%1f%(upstream:short)%1f%(upstream:track,nobracket)%1f%(committerdate:relative)%1f%(contents:subject)%1f%(objectname:short)%1f%(authorname)".to_string(),
        "refs/heads".to_string(),
    ]
}

/// Asks for the worktrees.
pub fn worktrees_args(dir: &str) -> (args: Vec<String>)
    ensures
        args.deep_view() == seq!["-C"@, dir@, "worktree"@, "list"@, "--porcelain"@],
{
    vec![
        "-C".to_string(),
        dir.to_string(),
        "worktree".to_string(),
        "list".to_string(),
        "--porcelain".to_string(),
    ]
}

/// Asks for the diff of the working tree.
pub fn working_diff_args(dir: &str) -> (args: Vec<String>)
    ensures
        args.deep_view() == seq!["-C"@, dir@, "diff"@, "--color=always"@],
{
    vec!["-C".to_string(), dir.to_string(), "diff".to_string(), "--color=always".to_string()]
}

/// Asks for the diff that the last pull made.
pub fn pulled_diff_args(dir: &str) -> (args: Vec<String>)
    ensures
        args.deep_view() == seq!["-C"@, dir@, "diff"@, "--color=always"@, "HEAD@{1}"@, "HEAD"@],
{
    vec![
        "-C".to_string(),
        dir.to_string(),
        "diff".to_string(),
        "--color=always".to_string(),
        "HEAD@{1}".to_string(),
        "HEAD".to_string(),
    ]
}

/// Asks for the remote's default branch.
pub fn remote_head_args(dir: &str) -> (args: Vec<String>)
    ensures
        args.deep_view() == seq![
            "-C"@,
            dir@,
            "symbolic-ref"@,
            "--short"@,
            "refs/remotes/origin/HEAD"@,
        ],
{
    vec![
        "-C".to_string(),
        dir.to_string(),
        "symbolic-ref".to_string(),
        "--short".to_string(),
        "refs/remotes/origin/HEAD".to_string(),
    ]
}

/// Asks whether a ref exists.
pub fn verify_args(dir: &str, candidate: &str) -> (args: Vec<String>)
    ensures
        args.deep_view() == seq!["-C"@, dir@, "rev-parse"@, "--verify"@, "--quiet"@, candidate@],
{
    vec![
        "-C".to_string(),
        dir.to_string(),
        "rev-parse".to_string(),
        "--verify".to_string(),
        "--quiet".to_string(),
        candidate.to_string(),
    ]
}

/// Asks for the point where a branch forked from its base.
pub fn merge_base_args(dir: &str, base: &str, branch: &str) -> (args: Vec<String>)
    ensures
        args.deep_view() == seq!["-C"@, dir@, "merge-base"@, base@, branch@],
{
    vec![
        "-C".to_string(),
        dir.to_string(),
        "merge-base".to_string(),
        base.to_string(),
        branch.to_string(),
    ]
}

/// Asks for the files that a branch changed since `base`.
pub fn branch_files_args(dir: &str, base: &str, branch: &str) -> (args: Vec<String>)
    ensures
        args.deep_view() == seq!["-C"@, dir@, "diff"@, "--name-status"@, base@, branch@],
{
    vec![
        "-C".to_string(),
        dir.to_string(),
        "diff".to_string(),
        "--name-status".to_string(),
        base.to_string(),
        branch.to_string(),
    ]
}

/// Asks for the files that changed since `base`.
pub fn base_files_args(dir: &str, base: &str) -> (args: Vec<String>)
    ensures
        args.deep_view() == seq!["-C"@, dir@, "diff"@, "--name-status"@, base@],
{
    vec![
        "-C".to_string(),
        dir.to_string(),
        "diff".to_string(),
        "--name-status".to_string(),
        base.to_string(),
    ]
}

/// Asks for the diff of one file that a branch changed since `base`.
pub fn branch_diff_args(dir: &str, base: &str, branch: &str, path: &str) -> (args: Vec<String>)
    ensures
        args.deep_view() == seq![
            "-C"@,
            dir@,
            "diff"@,
            "--color=always"@,
            base@,
            branch@,
            "--"@,
            path@,
        ],
{
    vec![
        "-C".to_string(),
        dir.to_string(),
        "diff".to_string(),
        "--color=always".to_string(),
        base.to_string(),
        branch.to_string(),
        "--".to_string(),
        path.to_string(),
    ]
}

/// Refreshes what is known of the remotes.
pub fn fetch_args(dir: &str) -> (args: Vec<String>)
    ensures
        args.deep_view() == seq!["-C"@, dir@, "fetch"@, "--all"@, "--quiet"@],
{
    vec![
        "-C".to_string(),
        dir.to_string(),
        "fetch".to_string(),
        "--all".to_string(),
        "--quiet".to_string(),
    ]
}

/// Checks out a branch.
pub fn checkout_args(dir: &str, branch: &str) -> (args: Vec<String>)
    ensures
        args.deep_view() == seq!["-C"@, dir@, "checkout"@, branch@],
{
    vec!["-C".to_string(), dir.to_string(), "checkout".to_string(), branch.to_string()]
}

/// Reverts the files that git knows.
pub fn reset_args(dir: &str) -> (args: Vec<String>)
    ensures
        args.deep_view() == seq!["-C"@, dir@, "reset"@, "--hard"@],
{
    vec!["-C".to_string(), dir.to_string(), "reset".to_string(), "--hard".to_string()]
}

/// Removes the files that git does not know; ignored files are left in place.
pub fn clean_args(dir: &str) -> (args: Vec<String>)
    ensures
        args.deep_view() == seq!["-C"@, dir@, "clean"@, "-fd"@],
{
    vec!["-C".to_string(), dir.to_string(), "clean".to_string(), "-fd".to_string()]
}

/// Asks for the colored diff of a repo: working-tree changes when `dirty`, otherwise the most
/// recent pull's diff (`HEAD@{1}..HEAD`).
pub fn repo_diff_args(dir: &str, dirty: bool) -> (args: Vec<String>)
    ensures
        args.deep_view() == (if dirty {
            seq!["-C"@, dir@, "diff"@, "--color=always"@]
        } else {
            seq!["-C"@, dir@, "diff"@, "--color=always"@, "HEAD@{1}"@, "HEAD"@]
        }),
{
    if dirty {
        working_diff_args(dir)
    } else {
        pulled_diff_args(dir)
    }
}

/// Deletes a branch: `-d` refuses one that is not merged, `-D` does not.
pub fn delete_branch_args(dir: &str, branch: &str, force: bool) -> (args: Vec<String>)
    ensures
        args.deep_view() == seq![
            "-C"@,
            dir@,
            "branch"@,
            if force {
                "-D"@
            } else {
                "-d"@
            },
            branch@,
        ],
{
    let flag = if force {
        "-D".to_string()
    } else {
        "-d".to_string()
    };
    let ghost flag_text = flag@;
    let args = vec!["-C".to_string(), dir.to_string(), "branch".to_string(), flag, branch.to_string()];
    assert(args.deep_view() =~= seq!["-C"@, dir@, "branch"@, flag_text, branch@]);
    args
}

/// Removes a worktree. Without `force`, git refuses when the worktree has uncommitted/untracked
/// changes or is locked.
pub fn remove_worktree_args(dir: &str, path: &str, force: bool) -> (args: Vec<String>)
    ensures
        args.deep_view() == (if force {
            seq!["-C"@, dir@, "worktree"@, "remove"@, "--force"@, path@]
        } else {
            seq!["-C"@, dir@, "worktree"@, "remove"@, path@]
        }),
{
    let mut args = vec![
        "-C".to_string(),
        dir.to_string(),
        "worktree".to_string(),
        "remove".to_string(),
    ];
    if force {
        args.push("--force".to_string());
    }
    args.push(path.to_string());
    assert(args.deep_view() =~= (if force {
        seq!["-C"@, dir@, "worktree"@, "remove"@, "--force"@, path@]
    } else {
        seq!["-C"@, dir@, "worktree"@, "remove"@, path@]
    }));
    args
}

// ---------------------------------------------------------------------------
// Stash entries

/// The ref of a stash entry.
pub open spec fn stash_ref_of(index: nat) -> Seq<char> {
    "stash@{"@ + decimal(index) + "}"@
}

/// The ref of a stash entry.
pub fn stash_ref(index: usize) -> (name: String)
    ensures
        name@ == stash_ref_of(index as nat),
{
    "stash@{".to_string().concat(decimal_text(index as u64).as_str()).concat("}")
}

/// Asks for the files of a stash entry, with their status.
pub fn stash_files_args(dir: &str, index: usize) -> (args: Vec<String>)
    ensures
        args.deep_view() == seq![
            "-C"@,
            dir@,
            "stash"@,
            "show"@,
            "--include-untracked"@,
            "--name-status"@,
            stash_ref_of(index as nat),
        ],
{
    vec![
        "-C".to_string(),
        dir.to_string(),
        "stash".to_string(),
        "show".to_string(),
        "--include-untracked".to_string(),
        "--name-status".to_string(),
        stash_ref(index),
    ]
}

/// Asks for the names of the files of a stash entry.
pub fn stash_names_args(dir: &str, index: usize) -> (args: Vec<String>)
    ensures
        args.deep_view() == seq![
            "-C"@,
            dir@,
            "stash"@,
            "show"@,
            "--include-untracked"@,
            "--name-only"@,
            stash_ref_of(index as nat),
        ],
{
    vec![
        "-C".to_string(),
        dir.to_string(),
        "stash".to_string(),
        "show".to_string(),
        "--include-untracked".to_string(),
        "--name-only".to_string(),
        stash_ref(index),
    ]
}

/// Asks for the untracked files of a stash entry, which `git stash -u` keeps in its third
/// parent.
pub fn stash_untracked_args(dir: &str, index: usize) -> (args: Vec<String>)
    ensures
        args.deep_view() == seq![
            "-C"@,
            dir@,
            "ls-tree"@,
            "-r"@,
            "--name-only"@,
            stash_ref_of(index as nat) + "^3"@,
        ],
{
    vec![
        "-C".to_string(),
        dir.to_string(),
        "ls-tree".to_string(),
        "-r".to_string(),
        "--name-only".to_string(),
        stash_ref(index).concat("^3"),
    ]
}

/// Drops a stash entry.
pub fn drop_stash_args(dir: &str, index: usize) -> (args: Vec<String>)
    ensures
        args.deep_view() == seq!["-C"@, dir@, "stash"@, "drop"@, stash_ref_of(index as nat)],
{
    vec![
        "-C".to_string(),
        dir.to_string(),
        "stash".to_string(),
        "drop".to_string(),
        stash_ref(index),
    ]
}

/// The empty-tree object — diff against it to render an untracked/added file whole.
pub const EMPTY_TREE: &'static str = "4b825dc642cb6eb9a060e54bf8d69288fbee4904";

/// Asks for the diff of an untracked file of a stash entry.
pub fn stash_untracked_diff_args(dir: &str, index: usize, path: &str) -> (args: Vec<String>)
    ensures
        args.deep_view() == seq![
            "-C"@,
            dir@,
            "diff"@,
            "--color=always"@,
            EMPTY_TREE@,
            stash_ref_of(index as nat) + "^3"@,
            "--"@,
            path@,
        ],
{
    vec![
        "-C".to_string(),
        dir.to_string(),
        "diff".to_string(),
        "--color=always".to_string(),
        EMPTY_TREE.to_string(),
        stash_ref(index).concat("^3"),
        "--".to_string(),
        path.to_string(),
    ]
}

/// Asks for the diff of a file of a stash entry that git knew.
pub fn stash_known_diff_args(dir: &str, index: usize, path: &str) -> (args: Vec<String>)
    ensures
        args.deep_view() == seq![
            "-C"@,
            dir@,
            "diff"@,
            "--color=always"@,
            stash_ref_of(index as nat) + "^1"@,
            stash_ref_of(index as nat),
            "--"@,
            path@,
        ],
{
    vec![
        "-C".to_string(),
        dir.to_string(),
        "diff".to_string(),
        "--color=always".to_string(),
        stash_ref(index).concat("^1"),
        stash_ref(index),
        "--".to_string(),
        path.to_string(),
    ]
}

/// Asks for the colored diff of a single file within a stash entry. Known files diff the stash
/// against its first parent (the state when stashed); untracked files diff the `^3` tree against
/// the empty tree.
pub fn stash_diff_args(dir: &str, index: usize, path: &str, untracked: bool) -> (args: Vec<String>)
    ensures
        args.deep_view() == seq![
            "-C"@,
            dir@,
            "diff"@,
            "--color=always"@,
            if untracked {
                EMPTY_TREE@
            } else {
                stash_ref_of(index as nat) + "^1"@
            },
            if untracked {
                stash_ref_of(index as nat) + "^3"@
            } else {
                stash_ref_of(index as nat)
            },
            "--"@,
            path@,
        ],
{
    if untracked {
        stash_untracked_diff_args(dir, index, path)
    } else {
        stash_known_diff_args(dir, index, path)
    }
}

// ---------------------------------------------------------------------------
// The diff of a file

/// Asks for an untracked file as a diff against nothing.
pub fn new_file_diff_args(dir: &str, path: &str) -> (args: Vec<String>)
    ensures
        args.deep_view() == seq![
            "-C"@,
            dir@,
            "diff"@,
            "--no-index"@,
            "--color=always"@,
            "/dev/null"@,
            joined(dir@, path@),
        ],
{
    vec![
        "-C".to_string(),
        dir.to_string(),
        "diff".to_string(),
        "--no-index".to_string(),
        "--color=always".to_string(),
        "/dev/null".to_string(),
        join_path(dir, path),
    ]
}

/// Asks for the diff of a file against `base` (a ref/sha), or against HEAD without one.
pub fn file_diff_args(dir: &str, base: &Option<String>, path: &str) -> (args: Vec<String>)
    ensures
        args.deep_view() == seq![
            "-C"@,
            dir@,
            "diff"@,
            "--color=always"@,
            match base.deep_view() {
                Some(base) => base,
                None => "HEAD"@,
            },
            "--"@,
            path@,
        ],
{
    let reference = match base {
        Some(base) => base.clone(),
        None => "HEAD".to_string(),
    };
    let ghost reference_text = reference@;
    let args = vec![
        "-C".to_string(),
        dir.to_string(),
        "diff".to_string(),
        "--color=always".to_string(),
        reference,
        "--".to_string(),
        path.to_string(),
    ];
    assert(args.deep_view() =~= seq![
        "-C"@,
        dir@,
        "diff"@,
        "--color=always"@,
        reference_text,
        "--"@,
        path@,
    ]);
    args
}

// ---------------------------------------------------------------------------
// The pull

/// Pulls a repo: the arguments of `timeout`, which ends git after so many seconds.
pub fn pull_args(dir: &str, timeout_secs: u64) -> (args: Vec<String>)
    ensures
        args.deep_view() == seq![
            decimal(timeout_secs as nat),
            "git"@,
            "-C"@,
            dir@,
            "pull"@,
            "--ff-only"@,
        ],
{
    let args = vec![
        decimal_text(timeout_secs),
        "git".to_string(),
        "-C".to_string(),
        dir.to_string(),
        "pull".to_string(),
        "--ff-only".to_string(),
    ];
    assert(args.deep_view() =~= seq![
        decimal(timeout_secs as nat),
        "git"@,
        "-C"@,
        dir@,
        "pull"@,
        "--ff-only"@,
    ]);
    args
}

// ---------------------------------------------------------------------------
// Changes that depend on what came before

/// Checks out a branch, unless the tree is dirty.
pub fn checkout_unless_dirty(dir: &str, branch: &str, dirty: bool) -> (args: Result<
    Vec<String>,
    String,
>)
    ensures
        told(args) == (if dirty {
            Err("working tree has uncommitted changes"@)
        } else {
            Ok(seq!["-C"@, dir@, "checkout"@, branch@])
        }),
{
    if dirty {
        return Err("working tree has uncommitted changes".to_string());
    }
    Ok(checkout_args(dir, branch))
}

/// Goes on with a discard once the known files are reverted: removes the unknown ones, unless the
/// reset failed.
pub fn clean_after(dir: &str, reset: &Result<CommandOutput, String>) -> (args: Result<
    Vec<String>,
    String,
>)
    ensures
        told(args) == (match step_of(told(*reset)) {
            Ok(()) => Ok(seq!["-C"@, dir@, "clean"@, "-fd"@]),
            Err(message) => Err(message),
        }),
{
    match command_result(reset) {
        Ok(()) => Ok(clean_args(dir)),
        Err(message) => Err(message),
    }
}

// ---------------------------------------------------------------------------
// Questions that depend on what is asked for

/// The question that the search for the base branch asks next; none where it is over.
pub fn base_question(search: &BaseSearch, dir: &str) -> (args: Option<Vec<String>>)
    requires
        search.wf(),
    ensures
        args.deep_view() == (match search.deep_view() {
            BaseView::RemoteHead => Some(
                seq!["-C"@, dir@, "symbolic-ref"@, "--short"@, "refs/remotes/origin/HEAD"@],
            ),
            BaseView::Candidate(place) => Some(
                seq![
                    "-C"@,
                    dir@,
                    "rev-parse"@,
                    "--verify"@,
                    "--quiet"@,
                    BASE_CANDIDATES@[place]@,
                ],
            ),
            BaseView::Over(_) => None,
        }),
{
    match search {
        BaseSearch::RemoteHead => Some(remote_head_args(dir)),
        BaseSearch::Candidate(place) => Some(verify_args(dir, BASE_CANDIDATES[*place])),
        BaseSearch::Over(_) => None,
    }
}

/// The question for the diff of a file of the working tree.
pub struct FileQuestion {
    /// Run git with these arguments.
    pub args: Vec<String>,
    /// Whether the file is shown whole, as it is not known to git.
    pub new_file: bool,
}

/// Asks for the colored diff of a single file against `base` (a ref/sha), or against HEAD when
/// `base` is None. Untracked files (not in HEAD/base) are shown whole.
pub fn file_question(dir: &str, base: &Option<String>, path: &str, untracked: bool) -> (question:
    FileQuestion)
    ensures
        question.new_file == untracked,
        question.args.deep_view() == (if untracked {
            seq![
                "-C"@,
                dir@,
                "diff"@,
                "--no-index"@,
                "--color=always"@,
                "/dev/null"@,
                joined(dir@, path@),
            ]
        } else {
            seq![
                "-C"@,
                dir@,
                "diff"@,
                "--color=always"@,
                match base.deep_view() {
                    Some(base) => base,
                    None => "HEAD"@,
                },
                "--"@,
                path@,
            ]
        }),
{
    if untracked {
        FileQuestion { args: new_file_diff_args(dir, path), new_file: true }
    } else {
        FileQuestion { args: file_diff_args(dir, base, path), new_file: false }
    }
}

impl FileQuestion {
    /// The lines that the answer shows.
    pub fn answer(&self, run: &Result<CommandOutput, String>) -> (shown: Vec<String>)
        ensures
            shown.deep_view() == (if self.new_file {
                diff_told(told(*run), "(new file)"@)
            } else {
                file_diff_told(told(*run))
            }),
    {
        if self.new_file {
            new_file_diff_lines(run)
        } else {
            file_diff_lines(run)
        }
    }
}

// ---------------------------------------------------------------------------
// Laws

/// A stash entry is named by its number.
pub proof fn law_stash_is_named_by_its_number(index: nat, other: nat)
    ensures
        stash_ref_of(index) == "stash@{"@ + decimal(index) + "}"@,
        stash_ref_of(index) == stash_ref_of(other) <==> index == other,
{
    if stash_ref_of(index) == stash_ref_of(other) {
        let a = "stash@{"@ + decimal(index) + "}"@;
        let b = "stash@{"@ + decimal(other) + "}"@;
        let n = "stash@{"@.len() as int;
        reveal_strlit("}");
        assert(a.subrange(n, a.len() - 1) =~= decimal(index));
        assert(b.subrange(n, b.len() - 1) =~= decimal(other));
        crate::number::law_decimal_reads_back(index);
        crate::number::law_decimal_reads_back(other);
    }
}

} // verus!

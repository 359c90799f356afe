//! What is known of a repository: its branches, worktrees, stashes and changed files.

use vstd::prelude::*;

use crate::text::copy_text;

verus! {

/// How many files a branch added, modified and deleted.
#[derive(Debug, Clone, Copy, PartialEq, Eq, Structural)]
pub struct BranchStats {
    pub added: u32,
    pub modified: u32,
    pub deleted: u32,
}

/// A local branch.
#[derive(Debug)]
pub struct BranchInfo {
    /// Whether the branch is checked out in the main worktree.
    pub is_head: bool,
    pub name: String,
    /// The short name of the branch it tracks, e.g. "origin/main".
    pub upstream: Option<String>,
    /// Commits that the upstream does not have; none where that is not known.
    pub ahead: Option<u32>,
    /// Commits that the branch does not have; none where that is not known.
    pub behind: Option<u32>,
    pub last_commit_rel: String,
    pub subject: String,
    pub commit_sha: String,
    pub author: String,
    pub stats: Option<BranchStats>,
    pub merge_base_short: Option<String>,
}

/// What a `BranchInfo` holds.
#[verifier::ext_equal]
pub struct BranchView {
    pub is_head: bool,
    pub name: Seq<char>,
    pub upstream: Option<Seq<char>>,
    pub ahead: Option<u32>,
    pub behind: Option<u32>,
    pub last_commit_rel: Seq<char>,
    pub subject: Seq<char>,
    pub commit_sha: Seq<char>,
    pub author: Seq<char>,
    pub stats: Option<BranchStats>,
    pub merge_base_short: Option<Seq<char>>,
}

impl DeepView for BranchInfo {
    type V = BranchView;

    open spec fn deep_view(&self) -> BranchView {
        BranchView {
            is_head: self.is_head,
            name: self.name@,
            upstream: self.upstream.deep_view(),
            ahead: self.ahead,
            behind: self.behind,
            last_commit_rel: self.last_commit_rel@,
            subject: self.subject@,
            commit_sha: self.commit_sha@,
            author: self.author@,
            stats: self.stats,
            merge_base_short: self.merge_base_short.deep_view(),
        }
    }
}

impl Clone for BranchInfo {
    fn clone(&self) -> (copy: Self)
        ensures
            copy.deep_view() == self.deep_view(),
    {
        BranchInfo {
            is_head: self.is_head,
            name: self.name.clone(),
            upstream: copy_text(&self.upstream),
            ahead: self.ahead,
            behind: self.behind,
            last_commit_rel: self.last_commit_rel.clone(),
            subject: self.subject.clone(),
            commit_sha: self.commit_sha.clone(),
            author: self.author.clone(),
            stats: self.stats,
            merge_base_short: copy_text(&self.merge_base_short),
        }
    }
}

/// A worktree beside the main checkout.
#[derive(Debug)]
pub struct WorktreeInfo {
    pub branch: String,
    pub path: String,
}

/// What a `WorktreeInfo` holds.
#[verifier::ext_equal]
pub struct WorktreeView {
    pub branch: Seq<char>,
    pub path: Seq<char>,
}

impl DeepView for WorktreeInfo {
    type V = WorktreeView;

    open spec fn deep_view(&self) -> WorktreeView {
        WorktreeView { branch: self.branch@, path: self.path@ }
    }
}

impl Clone for WorktreeInfo {
    fn clone(&self) -> (copy: Self)
        ensures
            copy.deep_view() == self.deep_view(),
    {
        WorktreeInfo { branch: self.branch.clone(), path: self.path.clone() }
    }
}

/// A stash entry.
#[derive(Debug)]
pub struct StashInfo {
    /// The place in the list; 0 is the newest.
    pub index: usize,
    pub label: String,
}

/// What a `StashInfo` holds.
#[verifier::ext_equal]
pub struct StashView {
    pub index: usize,
    pub label: Seq<char>,
}

impl DeepView for StashInfo {
    type V = StashView;

    open spec fn deep_view(&self) -> StashView {
        StashView { index: self.index, label: self.label@ }
    }
}

/// A changed file.
#[derive(Debug)]
pub struct DiffFile {
    /// The status letter, e.g. "M"; "?" for an untracked file.
    pub status: String,
    pub path: String,
    pub untracked: bool,
}

/// What a `DiffFile` holds.
#[verifier::ext_equal]
pub struct FileView {
    pub status: Seq<char>,
    pub path: Seq<char>,
    pub untracked: bool,
}

impl DeepView for DiffFile {
    type V = FileView;

    open spec fn deep_view(&self) -> FileView {
        FileView { status: self.status@, path: self.path@, untracked: self.untracked }
    }
}

/// What the info panel shows of a repository.
#[derive(Debug)]
pub struct RepoDetails {
    pub commit_hash: String,
    pub commit_subject: String,
    pub commit_author: String,
    pub commit_rel_date: String,
    /// When the last commit was made, in unix seconds.
    pub commit_timestamp: i64,
    pub ahead: Option<u32>,
    pub behind: Option<u32>,
    pub dirty_count: u32,
    pub stash_count: u32,
    pub branch_count: u32,
}

/// What a `RepoDetails` holds.
#[verifier::ext_equal]
pub struct DetailsView {
    pub commit_hash: Seq<char>,
    pub commit_subject: Seq<char>,
    pub commit_author: Seq<char>,
    pub commit_rel_date: Seq<char>,
    pub commit_timestamp: i64,
    pub ahead: Option<u32>,
    pub behind: Option<u32>,
    pub dirty_count: u32,
    pub stash_count: u32,
    pub branch_count: u32,
}

impl DeepView for RepoDetails {
    type V = DetailsView;

    open spec fn deep_view(&self) -> DetailsView {
        DetailsView {
            commit_hash: self.commit_hash@,
            commit_subject: self.commit_subject@,
            commit_author: self.commit_author@,
            commit_rel_date: self.commit_rel_date@,
            commit_timestamp: self.commit_timestamp,
            ahead: self.ahead,
            behind: self.behind,
            dirty_count: self.dirty_count,
            stash_count: self.stash_count,
            branch_count: self.branch_count,
        }
    }
}

/// The details before anything is known.
pub open spec fn no_details() -> DetailsView {
    DetailsView {
        commit_hash: Seq::empty(),
        commit_subject: Seq::empty(),
        commit_author: Seq::empty(),
        commit_rel_date: Seq::empty(),
        commit_timestamp: 0,
        ahead: None,
        behind: None,
        dirty_count: 0,
        stash_count: 0,
        branch_count: 0,
    }
}

impl Default for RepoDetails {
    fn default() -> (details: Self)
        ensures
            details.deep_view() == no_details(),
    {
        let details = RepoDetails {
            commit_hash: String::new(),
            commit_subject: String::new(),
            commit_author: String::new(),
            commit_rel_date: String::new(),
            commit_timestamp: 0,
            ahead: None,
            behind: None,
            dirty_count: 0,
            stash_count: 0,
            branch_count: 0,
        };
        assert(details.deep_view() =~= no_details());
        details
    }
}

} // verus!

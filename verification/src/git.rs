//! What git says: the parsers of its output, and what is made of each command that was run.

use vstd::prelude::*;
use vstd::string::*;

use crate::info::{
    BranchInfo, BranchStats, BranchView, DetailsView, DiffFile, FileView, RepoDetails,
    StashInfo, StashView, WorktreeInfo, WorktreeView,
};
use crate::number::{i64_of, parse_i64, parse_u32, u32_of};
use crate::output::{told, CommandOutput, OutputView};
use crate::path::{parts_of, same_path};
use crate::text::{
    around_first, behind_prefix, blank, byte_len, byte_len_of, chars_of, drop_suffix, is_blank,
    lines, lines_of, list_has, nonblank_lines, nonblank_lines_of, pieces, same, split, split_once,
    starts_with, string_of, strip_prefix, trim, trim_end, trimmed, trimmed_lines, trimmed_lines_of,
    without_back, without_empty, without_suffix, words, words_of, CharSet,
};

pub use crate::path::relative_path;
pub use crate::pull::{classify_pull_output, PullAllSummary, PullOutcome};
pub use crate::scan::{should_descend, PRUNE_DIRS};

verus! {

// ---------------------------------------------------------------------------
// Single values

/// The current branch by what `git rev-parse --abbrev-ref HEAD` wrote; "?" where it wrote
/// nothing.
pub open spec fn branch_text(stdout: Seq<char>) -> Seq<char> {
    if is_blank(stdout) {
        "?"@
    } else {
        trimmed(stdout)
    }
}

/// The current branch by what `git rev-parse --abbrev-ref HEAD` wrote.
pub open spec fn branch_told(run: Result<OutputView, Seq<char>>) -> Result<Seq<char>, Seq<char>> {
    match run {
        Ok(output) => Ok(branch_text(output.stdout)),
        Err(message) => Err(message),
    }
}

/// The current branch by what `git rev-parse --abbrev-ref HEAD` wrote; "?" where it wrote
/// nothing.
pub fn current_branch(run: &Result<CommandOutput, String>) -> (branch: Result<String, String>)
    ensures
        told(branch) == branch_told(told(*run)),
{
    match run {
        Ok(output) => {
            let branch = trim(output.stdout.as_str());
            if branch.as_str().is_empty() {
                Ok("?".to_string())
            } else {
                Ok(branch)
            }
        },
        Err(message) => Err(message.clone()),
    }
}

/// The current branch; "?" where it is not known.
pub fn branch_or_unknown(run: &Result<CommandOutput, String>) -> (branch: String)
    ensures
        branch@ == (match branch_told(told(*run)) {
            Ok(branch) => branch,
            Err(_) => "?"@,
        }),
{
    match current_branch(run) {
        Ok(branch) => branch,
        Err(_) => "?".to_string(),
    }
}

/// Whether the repo has uncommitted changes, by the bytes that `git status --porcelain` wrote.
pub fn has_changes(stdout: &Vec<u8>) -> (dirty: bool)
    ensures
        dirty == (stdout@.len() > 0),
{
    stdout.len() > 0
}

/// The low 32 bits of a count.
pub open spec fn low_bits(n: nat) -> u32 {
    (n % 0x1_0000_0000) as u32
}

fn count_of(items: &Vec<String>) -> (count: u32)
    ensures
        count == low_bits(items@.len()),
{
    let n: u64 = items.len() as u64;
    assert(n as u32 == n % 0x1_0000_0000) by (bit_vector);
    n as u32
}

/// How many lines of a listing hold anything; 0 where there is none.
pub open spec fn entry_count(run: Result<OutputView, Seq<char>>) -> u32 {
    match run {
        Ok(output) => low_bits(nonblank_lines_of(output.stdout).len()),
        Err(_) => 0,
    }
}

/// How many entries `git status --porcelain` or `git stash list` wrote, one per line. 0 on error.
pub fn count_entries(run: &Result<CommandOutput, String>) -> (count: u32)
    ensures
        count == entry_count(told(*run)),
{
    match run {
        Ok(output) => {
            let found = nonblank_lines(output.stdout.as_str());
            assert(found.deep_view().len() == found@.len());
            count_of(&found)
        },
        Err(_) => 0,
    }
}

/// What a command wrote, whether or not it exited with success.
pub fn written(run: &Result<CommandOutput, String>) -> (text: Result<String, String>)
    ensures
        told(text) == (match told(*run) {
            Ok(output) => Ok(output.stdout),
            Err(message) => Err(message),
        }),
{
    match run {
        Ok(output) => Ok(output.stdout.clone()),
        Err(message) => Err(message.clone()),
    }
}

// ---------------------------------------------------------------------------
// Remote addresses

/// A git remote address as a browsable one, before the suffix is dropped.
pub open spec fn browsable(raw: Seq<char>) -> Option<Seq<char>> {
    match behind_prefix(raw, "git@"@) {
        Some(rest) => match around_first(rest, ":"@) {
            Some((host, path)) => Some("https://"@ + host + "/"@ + path),
            None => None,
        },
        None => match behind_prefix(raw, "ssh://"@) {
            Some(rest) => Some(
                "https://"@ + match behind_prefix(rest, "git@"@) {
                    Some(address) => address,
                    None => rest,
                },
            ),
            None => match behind_prefix(raw, "http://"@) {
                Some(rest) => Some("https://"@ + rest),
                None => if "https://"@.is_prefix_of(raw) {
                    Some(raw)
                } else {
                    None
                },
            },
        },
    }
}

/// A git remote address as a browsable one.
pub open spec fn normalized(raw: Seq<char>) -> Option<Seq<char>> {
    if is_blank(raw) {
        None
    } else {
        match browsable(trimmed(raw)) {
            Some(address) => Some(without_suffix(address, ".git"@)),
            None => None,
        }
    }
}

/// Convert a git remote URL (scp-like, ssh, or http(s)) into a browsable https URL.
/// `git@github.com:org/repo.git` and `ssh://git@github.com/org/repo.git` both become
/// `https://github.com/org/repo`. Returns None for local paths or unknown forms.
pub fn normalize_remote_url(raw: &str) -> (url: Option<String>)
    ensures
        url.deep_view() == normalized(raw@),
{
    let raw = trim(raw);
    if raw.as_str().is_empty() {
        return None;
    }
    let https = if let Some(rest) = strip_prefix(raw.as_str(), "git@") {
        match split_once(rest.as_str(), ":") {
            Some((host, path)) => "https://".to_string().concat(host.as_str()).concat("/").concat(
                path.as_str(),
            ),
            None => {
                return None;
            },
        }
    } else if let Some(rest) = strip_prefix(raw.as_str(), "ssh://") {
        match strip_prefix(rest.as_str(), "git@") {
            Some(address) => "https://".to_string().concat(address.as_str()),
            None => "https://".to_string().concat(rest.as_str()),
        }
    } else if let Some(rest) = strip_prefix(raw.as_str(), "http://") {
        "https://".to_string().concat(rest.as_str())
    } else if starts_with(raw.as_str(), "https://") {
        raw
    } else {
        return None;
    };
    Some(drop_suffix(https.as_str(), ".git"))
}

/// The `origin` remote as a browsable address, by what `git remote get-url origin` wrote.
pub open spec fn remote_told(run: Result<OutputView, Seq<char>>) -> Option<Seq<char>> {
    match run {
        Ok(output) => if output.success {
            normalized(trimmed(output.stdout))
        } else {
            None
        },
        Err(_) => None,
    }
}

/// The `origin` remote as a browsable address. None when there's no origin or the URL isn't a
/// recognized git host form.
pub fn remote_url(run: &Result<CommandOutput, String>) -> (url: Option<String>)
    ensures
        url.deep_view() == remote_told(told(*run)),
{
    match run {
        Ok(output) => {
            if output.success {
                let raw = trim(output.stdout.as_str());
                normalize_remote_url(raw.as_str())
            } else {
                None
            }
        },
        Err(_) => None,
    }
}

// ---------------------------------------------------------------------------
// The last commit, and the distance from the upstream

/// The character between the fields of a formatted line.
pub const FIELD_SEPARATOR: char = '\u{1f}';

/// The field at `i`; empty where the line has fewer.
pub open spec fn field(fields: Seq<Seq<char>>, i: int) -> Seq<char> {
    if i < fields.len() {
        fields[i]
    } else {
        Seq::empty()
    }
}

fn take_field(fields: &Vec<String>, i: usize) -> (text: String)
    ensures
        text@ == field(fields.deep_view(), i as int),
{
    if i < fields.len() {
        assert(fields.deep_view()[i as int] == fields@[i as int]@);
        fields[i].clone()
    } else {
        let text = String::new();
        assert(text@ =~= Seq::<char>::empty());
        text
    }
}

/// The number that a text writes; 0 where it writes none.
pub open spec fn number_or_zero(text: Seq<char>) -> i64 {
    match i64_of(trimmed(text)) {
        Some(number) => number,
        None => 0,
    }
}

/// The fields of a line that describes a commit: hash, subject, author, relative date and
/// committer timestamp.
pub open spec fn commit_fields(line: Seq<char>) -> (
    Seq<char>,
    Seq<char>,
    Seq<char>,
    Seq<char>,
    i64,
) {
    let fields = pieces(without_back(line, CharSet::LineEnd), CharSet::Only(FIELD_SEPARATOR));
    (
        field(fields, 0),
        field(fields, 1),
        field(fields, 2),
        field(fields, 3),
        if fields.len() > 4 {
            number_or_zero(fields[4])
        } else {
            0
        },
    )
}

/// Parse the US (0x1f)-separated `git log -1 --format=%h%x1f%s%x1f%an%x1f%cr%x1f%ct` line
/// into (hash, subject, author, relative-date, committer-timestamp).
pub fn parse_commit_line(line: &str) -> (commit: (String, String, String, String, i64))
    ensures
        commit.deep_view() == commit_fields(line@),
{
    let line = trim_end(line, &CharSet::LineEnd);
    let fields = split(line.as_str(), &CharSet::Only(FIELD_SEPARATOR));
    let timestamp = if fields.len() > 4 {
        assert(fields.deep_view()[4] == fields@[4]@);
        match parse_i64(trim(fields[4].as_str()).as_str()) {
            Some(number) => number,
            None => 0,
        }
    } else {
        0
    };
    (
        take_field(&fields, 0),
        take_field(&fields, 1),
        take_field(&fields, 2),
        take_field(&fields, 3),
        timestamp,
    )
}

/// The number at `i` in a list of words.
pub open spec fn number_at(words: Seq<Seq<char>>, i: int) -> Option<u32> {
    if i < words.len() {
        u32_of(words[i])
    } else {
        None
    }
}

fn parse_at(words: &Vec<String>, i: usize) -> (number: Option<u32>)
    ensures
        number == number_at(words.deep_view(), i as int),
{
    if i < words.len() {
        assert(words.deep_view()[i as int] == words@[i as int]@);
        parse_u32(words[i].as_str())
    } else {
        None
    }
}

/// How far a branch is behind its upstream and ahead of it, by the first two words of a text; for
/// neither side where one of them is no number.
pub open spec fn distance_in(text: Seq<char>) -> (Option<u32>, Option<u32>) {
    let nums = words_of(text, CharSet::White);
    match (number_at(nums, 0), number_at(nums, 1)) {
        (Some(behind), Some(ahead)) => (Some(behind), Some(ahead)),
        _ => (None, None),
    }
}

/// Parse `git rev-list --left-right --count @{u}...HEAD` output ("behind\tahead")
/// into (behind, ahead). Empty/garbage input yields (None, None).
pub fn parse_ahead_behind(text: &str) -> (counts: (Option<u32>, Option<u32>))
    ensures
        counts == distance_in(text@),
{
    let nums = words(text, &CharSet::White);
    match (parse_at(&nums, 0), parse_at(&nums, 1)) {
        (Some(behind), Some(ahead)) => (Some(behind), Some(ahead)),
        _ => (None, None),
    }
}

/// What the words of a track say: the number behind "ahead" and the one behind "behind", where a
/// later one replaces an earlier one, and a word that is no number counts as 0.
pub open spec fn track_counts(tokens: Seq<Seq<char>>, ahead: u32, behind: u32) -> (u32, u32)
    decreases tokens.len(),
{
    let value = match number_at(tokens, 1) {
        Some(number) => number,
        None => 0,
    };
    let rest = if tokens.len() > 1 {
        tokens.skip(2)
    } else {
        Seq::empty()
    };
    if tokens.len() == 0 {
        (ahead, behind)
    } else if tokens[0] == "ahead"@ {
        track_counts(rest, value, behind)
    } else if tokens[0] == "behind"@ {
        track_counts(rest, ahead, value)
    } else {
        track_counts(tokens.skip(1), ahead, behind)
    }
}

/// How far a branch is ahead of its upstream and behind it.
pub open spec fn distance_told(upstream: Seq<char>, track: Seq<char>) -> (Option<u32>, Option<u32>) {
    if is_blank(upstream) || trimmed(track) == "gone"@ {
        (None, None)
    } else if is_blank(track) {
        (Some(0), Some(0))
    } else {
        let counts = track_counts(words_of(trimmed(track), CharSet::CommaOrSpace), 0, 0);
        (Some(counts.0), Some(counts.1))
    }
}

/// Parse a `%(upstream:track,nobracket)` value into (ahead, behind).
/// No upstream or `gone` → (None, None); present-but-current → (Some(0), Some(0)).
pub fn parse_track(upstream: &str, track: &str) -> (counts: (Option<u32>, Option<u32>))
    ensures
        counts == distance_told(upstream@, track@),
{
    if blank(upstream) {
        return (None, None);
    }
    let track = trim(track);
    if same(track.as_str(), "gone") {
        return (None, None);
    }
    if track.as_str().is_empty() {
        return (Some(0), Some(0));
    }
    let tokens = words(track.as_str(), &CharSet::CommaOrSpace);
    let ghost all = tokens.deep_view();
    let total: usize = tokens.len();
    let mut ahead: u32 = 0;
    let mut behind: u32 = 0;
    let mut index: usize = 0;
    assert(all.skip(0) =~= all);
    while index < total
        invariant
            total == tokens@.len(),
            all == tokens.deep_view(),
            index <= total,
            track_counts(all, 0, 0) == track_counts(all.skip(index as int), ahead, behind),
        decreases total - index,
    {
        let ghost rest = all.skip(index as int);
        proof {
            assert(rest[0] == tokens@[index as int]@);
            assert(rest.skip(1) =~= all.skip(index + 1));
            if index + 1 < total {
                assert(rest[1] == all[index + 1]);
                assert(rest.skip(2) =~= all.skip(index + 2));
            }
        }
        if same(tokens[index].as_str(), "ahead") {
            index = index + 1;
            ahead =
            match parse_at(&tokens, index) {
                Some(number) => number,
                None => 0,
            };
            if index < total {
                index = index + 1;
            } else {
                assert(all.skip(index as int) =~= Seq::empty());
            }
        } else if same(tokens[index].as_str(), "behind") {
            index = index + 1;
            behind =
            match parse_at(&tokens, index) {
                Some(number) => number,
                None => 0,
            };
            if index < total {
                index = index + 1;
            } else {
                assert(all.skip(index as int) =~= Seq::empty());
            }
        } else {
            index = index + 1;
        }
    }
    assert(all.skip(total as int) =~= Seq::empty());
    (Some(ahead), Some(behind))
}

// ---------------------------------------------------------------------------
// Branches and worktrees

/// What a command wrote, where it ran and exited with success.
pub open spec fn success_text(run: Result<OutputView, Seq<char>>) -> Option<Seq<char>> {
    match run {
        Ok(output) => if output.success {
            Some(output.stdout)
        } else {
            None
        },
        Err(_) => None,
    }
}

fn text_on_success(run: &Result<CommandOutput, String>) -> (text: Option<String>)
    ensures
        text.deep_view() == success_text(told(*run)),
{
    match run {
        Ok(output) => {
            if output.success {
                Some(output.stdout.clone())
            } else {
                None
            }
        },
        Err(_) => None,
    }
}

/// `text`, where it is not empty.
pub open spec fn unless_empty(text: Seq<char>) -> Option<Seq<char>> {
    if text.len() == 0 {
        None
    } else {
        Some(text)
    }
}

/// The branch that a line of `git for-each-ref` describes; none where the line has less than six
/// fields or no branch name.
pub open spec fn branch_of_line(line: Seq<char>) -> Option<BranchView> {
    let fields = pieces(line, CharSet::Only(FIELD_SEPARATOR));
    if fields.len() < 6 || fields[1].len() == 0 {
        None
    } else {
        Some(
            BranchView {
                is_head: fields[0] == "*"@,
                name: fields[1],
                upstream: unless_empty(fields[2]),
                ahead: distance_told(fields[2], fields[3]).0,
                behind: distance_told(fields[2], fields[3]).1,
                last_commit_rel: fields[4],
                subject: fields[5],
                commit_sha: field(fields, 6),
                author: field(fields, 7),
                stats: None,
                merge_base_short: None,
            },
        )
    }
}

/// Parse one US (0x1f)-separated `for-each-ref` line into a BranchInfo. Fields 6 (short sha)
/// and 7 (author) are tolerated as absent for forward/backward compatibility.
pub fn parse_branch_line(line: &str) -> (branch: Option<BranchInfo>)
    ensures
        branch.deep_view() == branch_of_line(line@),
{
    let fields = split(line, &CharSet::Only(FIELD_SEPARATOR));
    let ghost all = fields.deep_view();
    proof {
        assert forall|i: int| 0 <= i < fields@.len() implies all[i] == (#[trigger] fields@[i])@ by {
        }
    }
    if fields.len() < 6 || fields[1].as_str().is_empty() {
        return None;
    }
    let upstream = if fields[2].as_str().is_empty() {
        None
    } else {
        Some(fields[2].clone())
    };
    let (ahead, behind) = parse_track(fields[2].as_str(), fields[3].as_str());
    let branch = BranchInfo {
        is_head: same(fields[0].as_str(), "*"),
        name: fields[1].clone(),
        upstream,
        ahead,
        behind,
        last_commit_rel: fields[4].clone(),
        subject: fields[5].clone(),
        commit_sha: take_field(&fields, 6),
        author: take_field(&fields, 7),
        stats: None,
        merge_base_short: None,
    };
    assert(branch.deep_view() =~= branch_of_line(line@)->0);
    Some(branch)
}

/// The branches that `git for-each-ref` lists.
pub open spec fn branches_told(run: Result<OutputView, Seq<char>>) -> Seq<BranchView> {
    match success_text(run) {
        Some(text) => lines_of(text).filter_map(|line: Seq<char>| branch_of_line(line)),
        None => Seq::empty(),
    }
}

/// The branches that `git for-each-ref` lists, in its order; none where it failed.
pub fn local_branches(run: &Result<CommandOutput, String>) -> (branches: Vec<BranchInfo>)
    ensures
        branches.deep_view() == branches_told(told(*run)),
{
    let mut branches: Vec<BranchInfo> = Vec::new();
    let text = match text_on_success(run) {
        Some(text) => text,
        None => {
            assert(branches.deep_view() =~= Seq::empty());
            return branches;
        },
    };
    let found = lines(text.as_str());
    let ghost all = found.deep_view();
    let ghost parse = |line: Seq<char>| branch_of_line(line);
    let mut i: usize = 0;
    while i < found.len()
        invariant
            i <= found@.len(),
            all == found.deep_view(),
            parse == (|line: Seq<char>| branch_of_line(line)),
            branches.deep_view() =~= all.take(i as int).filter_map(parse),
        decreases found@.len() - i,
    {
        proof {
            assert(all[i as int] == found@[i as int]@);
            all.lemma_filter_map_take_succ(parse, i as int);
        }
        if let Some(branch) = parse_branch_line(found[i].as_str()) {
            let ghost before = branches.deep_view();
            let ghost one = branch.deep_view();
            branches.push(branch);
            assert(branches.deep_view() =~= before.push(one));
        }
        i = i + 1;
    }
    assert(all.take(i as int) =~= all);
    branches
}

/// What has been read of a list of worktrees: the path and the branch of the entry that is being
/// read, and the worktrees that are complete.
#[verifier::ext_equal]
pub struct WorktreeScan {
    pub path: Option<Seq<char>>,
    pub branch: Option<Seq<char>>,
    pub found: Seq<WorktreeView>,
}

impl WorktreeScan {
    /// The worktrees with the entry that is being read: one without a branch, and the main
    /// checkout, are left out.
    pub open spec fn closed_entry(self, main_dir: Seq<char>) -> Seq<WorktreeView> {
        match (self.path, self.branch) {
            (Some(path), Some(branch)) => if parts_of(path) != parts_of(main_dir) {
                self.found.push(WorktreeView { branch, path })
            } else {
                self.found
            },
            _ => self.found,
        }
    }

    /// What one more line adds: "worktree" opens an entry, "branch" names its branch.
    pub open spec fn read(self, line: Seq<char>, main_dir: Seq<char>) -> WorktreeScan {
        match behind_prefix(line, "worktree "@) {
            Some(path) => WorktreeScan {
                path: Some(path),
                branch: None,
                found: self.closed_entry(main_dir),
            },
            None => match behind_prefix(line, "branch "@) {
                Some(name) => WorktreeScan {
                    branch: Some(
                        match behind_prefix(name, "refs/heads/"@) {
                            Some(short) => short,
                            None => name,
                        },
                    ),
                    ..self
                },
                None => self,
            },
        }
    }
}

/// What is read of the lines of a list of worktrees.
pub open spec fn scanned_worktrees(lines: Seq<Seq<char>>, main_dir: Seq<char>) -> WorktreeScan
    decreases lines.len(),
{
    if lines.len() == 0 {
        WorktreeScan { path: None, branch: None, found: Seq::empty() }
    } else {
        scanned_worktrees(lines.drop_last(), main_dir).read(lines.last(), main_dir)
    }
}

/// The worktrees that `git worktree list --porcelain` lists.
pub open spec fn worktrees_in(output: Seq<char>, main_dir: Seq<char>) -> Seq<WorktreeView> {
    scanned_worktrees(lines_of(output), main_dir).closed_entry(main_dir)
}

fn close_entry(
    path: &mut Option<String>,
    branch: &mut Option<String>,
    main_dir: &str,
    found: &mut Vec<WorktreeInfo>,
)
    ensures
        *final(path) is None,
        *final(branch) is None,
        final(found).deep_view() == (WorktreeScan {
            path: old(path).deep_view(),
            branch: old(branch).deep_view(),
            found: old(found).deep_view(),
        }).closed_entry(main_dir@),
{
    let ghost before = found.deep_view();
    let taken_path = path.take();
    let taken_branch = branch.take();
    if let (Some(found_path), Some(found_branch)) = (taken_path, taken_branch) {
        if !same_path(found_path.as_str(), main_dir) {
            let entry = WorktreeInfo { branch: found_branch, path: found_path };
            let ghost one = entry.deep_view();
            found.push(entry);
            assert(found.deep_view() =~= before.push(one));
        }
    }
}

/// Parse `git worktree list --porcelain` output into worktrees, skipping the main checkout
/// (path == `main_dir`) and detached/bare entries (no branch).
pub fn parse_worktree_porcelain(output: &str, main_dir: &str) -> (worktrees: Vec<WorktreeInfo>)
    ensures
        worktrees.deep_view() == worktrees_in(output@, main_dir@),
{
    let all_lines = lines(output);
    let ghost all = all_lines.deep_view();
    let mut found: Vec<WorktreeInfo> = Vec::new();
    let mut path: Option<String> = None;
    let mut branch: Option<String> = None;
    let mut i: usize = 0;
    assert(found.deep_view() =~= Seq::<WorktreeView>::empty());
    while i < all_lines.len()
        invariant
            i <= all_lines@.len(),
            all == all_lines.deep_view(),
            scanned_worktrees(all.take(i as int), main_dir@) == (WorktreeScan {
                path: path.deep_view(),
                branch: branch.deep_view(),
                found: found.deep_view(),
            }),
        decreases all_lines@.len() - i,
    {
        proof {
            assert(all[i as int] == all_lines@[i as int]@);
            assert(all.take(i + 1).drop_last() =~= all.take(i as int));
        }
        let line = all_lines[i].as_str();
        if let Some(rest) = strip_prefix(line, "worktree ") {
            close_entry(&mut path, &mut branch, main_dir, &mut found);
            path = Some(rest);
        } else if let Some(rest) = strip_prefix(line, "branch ") {
            branch =
            Some(
                match strip_prefix(rest.as_str(), "refs/heads/") {
                    Some(short) => short,
                    None => rest,
                },
            );
        }
        i = i + 1;
    }
    assert(all.take(i as int) =~= all);
    close_entry(&mut path, &mut branch, main_dir, &mut found);
    found
}

/// The worktrees of a repo (excluding the main checkout), by what `git worktree list --porcelain`
/// wrote; none where it failed.
pub fn worktrees(run: &Result<CommandOutput, String>, dir: &str) -> (found: Vec<WorktreeInfo>)
    ensures
        found.deep_view() == (match success_text(told(*run)) {
            Some(text) => worktrees_in(text, dir@),
            None => Seq::empty(),
        }),
{
    match text_on_success(run) {
        Some(text) => parse_worktree_porcelain(text.as_str(), dir),
        None => {
            let found: Vec<WorktreeInfo> = Vec::new();
            assert(found.deep_view() =~= Seq::empty());
            found
        },
    }
}

// ---------------------------------------------------------------------------
// Changed files

/// The status letter that a line of `--name-status` begins with.
pub open spec fn status_letter(line: Seq<char>) -> Option<char> {
    let first = pieces(line, CharSet::Only('\t'))[0];
    if first.len() > 0 {
        Some(first[0])
    } else {
        None
    }
}

/// How a changed file counts.
#[derive(Debug, Clone, Copy, PartialEq, Eq, Structural)]
pub enum Change {
    Added,
    Modified,
    Deleted,
}

/// How a status letter counts, in either letter case.
pub open spec fn change_of(letter: char) -> Option<Change> {
    if letter == 'A' || letter == 'a' || letter == '?' {
        Some(Change::Added)
    } else if letter == 'D' || letter == 'd' {
        Some(Change::Deleted)
    } else if letter == 'M' || letter == 'm' || letter == 'T' || letter == 't' || letter == 'R'
        || letter == 'r' || letter == 'C' || letter == 'c' {
        Some(Change::Modified)
    } else {
        None
    }
}

/// How a line of `--name-status` counts.
pub open spec fn line_change(line: Seq<char>) -> Option<Change> {
    match status_letter(line) {
        Some(letter) => change_of(letter),
        None => None,
    }
}

/// How many lines count as `change`.
pub open spec fn change_count(lines: Seq<Seq<char>>, change: Change) -> nat {
    lines.filter(|line: Seq<char>| line_change(line) == Some(change)).len()
}

fn change_of_line(line: &str) -> (change: Option<Change>)
    ensures
        change == line_change(line@),
{
    let fields = split(line, &CharSet::Only('\t'));
    assert(fields.deep_view()[0] == fields@[0]@);
    let first = chars_of(fields[0].as_str());
    if first.len() == 0 {
        return None;
    }
    let letter = first[0];
    if letter == 'A' || letter == 'a' || letter == '?' {
        Some(Change::Added)
    } else if letter == 'D' || letter == 'd' {
        Some(Change::Deleted)
    } else if letter == 'M' || letter == 'm' || letter == 'T' || letter == 't' || letter == 'R'
        || letter == 'r' || letter == 'C' || letter == 'c' {
        Some(Change::Modified)
    } else {
        None
    }
}

proof fn lemma_change_count_grows(lines: Seq<Seq<char>>, i: int, change: Change)
    requires
        0 <= i < lines.len(),
    ensures
        change_count(lines.take(i + 1), change) == change_count(lines.take(i), change) + (
        if line_change(lines[i]) == Some(change) {
            1nat
        } else {
            0nat
        }),
        change_count(lines.take(i + 1), change) <= change_count(lines, change),
    decreases lines.len() - i,
{
    let keep = |line: Seq<char>| line_change(line) == Some(change);
    assert(lines.take(i + 1) =~= lines.take(i).push(lines[i]));
    lines.take(i).lemma_filter_push(lines[i], keep);
    if i + 1 < lines.len() {
        lemma_change_count_grows(lines, i + 1, change);
    } else {
        assert(lines.take(i + 1) =~= lines);
    }
}

/// The counts fit the tally.
pub open spec fn countable(stdout: Seq<char>) -> bool {
    forall|change: Change| #[trigger] change_count(lines_of(stdout), change) <= u32::MAX
}

/// Count `--name-status` lines into (added, modified, deleted): A and untracked `?` are added,
/// D is deleted, and M/T plus renames/copies (R*/C*) count as modified.
pub fn count_name_status(stdout: &str) -> (counts: (u32, u32, u32))
    requires
        countable(stdout@),
    ensures
        counts.0 == change_count(lines_of(stdout@), Change::Added),
        counts.1 == change_count(lines_of(stdout@), Change::Modified),
        counts.2 == change_count(lines_of(stdout@), Change::Deleted),
{
    let found = lines(stdout);
    let ghost all = found.deep_view();
    let mut added: u32 = 0;
    let mut modified: u32 = 0;
    let mut deleted: u32 = 0;
    let mut i: usize = 0;
    proof {
        assert(change_count(all, Change::Added) <= u32::MAX);
        assert(change_count(all, Change::Modified) <= u32::MAX);
        assert(change_count(all, Change::Deleted) <= u32::MAX);
        assert(all.take(0) =~= Seq::empty());
        reveal(Seq::filter);
    }
    while i < found.len()
        invariant
            i <= found@.len(),
            all == found.deep_view(),
            change_count(all, Change::Added) <= u32::MAX,
            change_count(all, Change::Modified) <= u32::MAX,
            change_count(all, Change::Deleted) <= u32::MAX,
            added == change_count(all.take(i as int), Change::Added),
            modified == change_count(all.take(i as int), Change::Modified),
            deleted == change_count(all.take(i as int), Change::Deleted),
        decreases found@.len() - i,
    {
        proof {
            assert(all[i as int] == found@[i as int]@);
            lemma_change_count_grows(all, i as int, Change::Added);
            lemma_change_count_grows(all, i as int, Change::Modified);
            lemma_change_count_grows(all, i as int, Change::Deleted);
        }
        match change_of_line(found[i].as_str()) {
            Some(Change::Added) => {
                added = added + 1;
            },
            Some(Change::Modified) => {
                modified = modified + 1;
            },
            Some(Change::Deleted) => {
                deleted = deleted + 1;
            },
            None => {},
        }
        i = i + 1;
    }
    assert(all.take(i as int) =~= all);
    (added, modified, deleted)
}

/// Per-branch change stats, by what `git diff --name-status` wrote; none where it failed.
pub fn branch_stats(run: &Result<CommandOutput, String>) -> (stats: Option<BranchStats>)
    requires
        success_text(told(*run)) matches Some(text) ==> countable(text),
    ensures
        match success_text(told(*run)) {
            Some(text) => stats matches Some(counts) && counts.added == change_count(
                lines_of(text),
                Change::Added,
            ) && counts.modified == change_count(lines_of(text), Change::Modified)
                && counts.deleted == change_count(lines_of(text), Change::Deleted),
            None => stats is None,
        },
{
    match text_on_success(run) {
        Some(text) => {
            let (added, modified, deleted) = count_name_status(text.as_str());
            Some(BranchStats { added, modified, deleted })
        },
        None => None,
    }
}

/// The file that a line of `--name-status` names: the path is the last field, the new one of a
/// rename.
pub open spec fn file_of_line(line: Seq<char>) -> Option<FileView> {
    let fields = pieces(line, CharSet::Only('\t'));
    match status_letter(line) {
        Some(letter) => if fields.len() > 1 && fields.last().len() > 0 {
            Some(FileView { status: seq![letter], path: fields.last(), untracked: false })
        } else {
            None
        },
        None => None,
    }
}

/// The files that `--name-status` output names.
pub open spec fn files_in(stdout: Seq<char>) -> Seq<FileView> {
    lines_of(stdout).filter_map(|line: Seq<char>| file_of_line(line))
}

fn parse_file_line(line: &str) -> (file: Option<DiffFile>)
    ensures
        file.deep_view() == file_of_line(line@),
{
    let fields = split(line, &CharSet::Only('\t'));
    let ghost all = fields.deep_view();
    let last: usize = fields.len() - 1;
    assert(all[0] == fields@[0]@);
    assert(all[last as int] == fields@[last as int]@);
    let first = chars_of(fields[0].as_str());
    if first.len() == 0 || last == 0 {
        return None;
    }
    if fields[last].as_str().is_empty() {
        return None;
    }
    let file = DiffFile {
        status: string_of(&first, 0, 1),
        path: fields[last].clone(),
        untracked: false,
    };
    assert(file.status@ =~= seq![first@[0]]);
    assert(file.deep_view() =~= file_of_line(line@)->0);
    Some(file)
}

/// Parse `--name-status` output (`STATUS\tPATH`, or `R100\tOLD\tNEW` for renames) into files.
pub fn parse_name_status(stdout: &str) -> (files: Vec<DiffFile>)
    ensures
        files.deep_view() == files_in(stdout@),
{
    let found = lines(stdout);
    let ghost all = found.deep_view();
    let ghost parse = |line: Seq<char>| file_of_line(line);
    let mut files: Vec<DiffFile> = Vec::new();
    let mut i: usize = 0;
    while i < found.len()
        invariant
            i <= found@.len(),
            all == found.deep_view(),
            parse == (|line: Seq<char>| file_of_line(line)),
            files.deep_view() =~= all.take(i as int).filter_map(parse),
        decreases found@.len() - i,
    {
        proof {
            assert(all[i as int] == found@[i as int]@);
            all.lemma_filter_map_take_succ(parse, i as int);
        }
        if let Some(file) = parse_file_line(found[i].as_str()) {
            let ghost before = files.deep_view();
            let ghost one = file.deep_view();
            files.push(file);
            assert(files.deep_view() =~= before.push(one));
        }
        i = i + 1;
    }
    assert(all.take(i as int) =~= all);
    files
}

/// The files that a command with `--name-status` names; none where it failed.
pub open spec fn files_told(run: Result<OutputView, Seq<char>>) -> Seq<FileView> {
    match success_text(run) {
        Some(text) => files_in(text),
        None => Seq::empty(),
    }
}

/// The files that a command with `--name-status` names; none where it failed.
pub fn changed_files(run: &Result<CommandOutput, String>) -> (files: Vec<DiffFile>)
    ensures
        files.deep_view() == files_told(told(*run)),
{
    match text_on_success(run) {
        Some(text) => parse_name_status(text.as_str()),
        None => {
            let files: Vec<DiffFile> = Vec::new();
            assert(files.deep_view() =~= Seq::empty());
            files
        },
    }
}

/// The file, flagged as untracked where it stands in a list of untracked files.
pub open spec fn flagged(file: FileView, untracked: Seq<Seq<char>>) -> FileView {
    FileView { untracked: file.untracked || untracked.contains(file.path), ..file }
}

/// The files of a stash: `run` lists them, `tree` lists the untracked ones among them.
pub open spec fn stashed_files(
    run: Result<OutputView, Seq<char>>,
    tree: Result<OutputView, Seq<char>>,
) -> Seq<FileView> {
    match success_text(tree) {
        Some(text) => files_told(run).map_values(|file: FileView| flagged(file, lines_of(text))),
        None => files_told(run),
    }
}

/// Files in a stash entry, with the untracked ones (stored in the stash's `^3` tree) flagged so
/// their diff uses the right command.
pub fn stash_file_list(
    run: &Result<CommandOutput, String>,
    tree: &Result<CommandOutput, String>,
) -> (files: Vec<DiffFile>)
    ensures
        files.deep_view() == stashed_files(told(*run), told(*tree)),
{
    let mut files = changed_files(run);
    let ghost all = files.deep_view();
    if let Some(text) = text_on_success(tree) {
        let untracked = lines(text.as_str());
        let ghost names = untracked.deep_view();
        let mut i: usize = 0;
        while i < files.len()
            invariant
                i <= files@.len(),
                files@.len() == all.len(),
                names == untracked.deep_view(),
                forall|j: int|
                    0 <= j < i ==> (#[trigger] files@[j]).deep_view() == flagged(all[j], names),
                forall|j: int| i <= j < all.len() ==> (#[trigger] files@[j]).deep_view() == all[j],
            decreases files@.len() - i,
        {
            assert(files@[i as int].deep_view() == all[i as int]);
            if list_has(&untracked, files[i].path.as_str()) {
                files[i].untracked = true;
            }
            i = i + 1;
        }
        assert(files.deep_view() =~= all.map_values(|file: FileView| flagged(file, names)));
    }
    files
}

// ---------------------------------------------------------------------------
// Uncommitted changes

/// A character that UTF-8 writes in one byte.
pub open spec fn one_byte(c: char) -> bool {
    c <= '\u{7f}'
}

/// A character that UTF-8 writes in two bytes.
pub open spec fn two_bytes(c: char) -> bool {
    '\u{80}' <= c <= '\u{7ff}'
}

/// How many characters the status code of a line has, which is its first two bytes.
pub open spec fn code_len(line: Seq<char>) -> int {
    if line.len() > 0 && two_bytes(line[0]) {
        1
    } else {
        2
    }
}

/// The line can be cut behind its first two and its first three bytes, or has less than four.
pub open spec fn is_cuttable(line: Seq<char>) -> bool {
    byte_len_of(line) < 4 || line.len() > code_len(line) && one_byte(line[code_len(line)]) && (
    code_len(line) == 1 || one_byte(line[0]) && one_byte(line[1]))
}

/// Every line of the output can be cut.
pub open spec fn is_porcelain(stdout: Seq<char>) -> bool {
    forall|i: int| 0 <= i < lines_of(stdout).len() ==> is_cuttable(#[trigger] lines_of(stdout)[i])
}

/// The path behind the status code of a line; of a rename, the new one.
pub open spec fn porcelain_path(line: Seq<char>) -> Seq<char> {
    let rest = line.skip(code_len(line) + 1);
    match around_first(rest, " -> "@) {
        Some((_, new)) => new,
        None => rest,
    }
}

/// The status code and the path of a line of `git status --porcelain`; none for a line of less
/// than four bytes.
pub open spec fn porcelain_entry(line: Seq<char>) -> Option<(Seq<char>, Seq<char>)> {
    if byte_len_of(line) < 4 {
        None
    } else {
        Some((line.take(code_len(line)), porcelain_path(line)))
    }
}

fn cuttable(line: &str) -> (fine: bool)
    ensures
        fine == is_cuttable(line@),
{
    if byte_len(line) < 4 {
        return true;
    }
    let chars = chars_of(line);
    if chars.len() > 0 && '\u{80}' <= chars[0] && chars[0] <= '\u{7ff}' {
        chars.len() > 1 && chars[1] <= '\u{7f}'
    } else {
        chars.len() > 2 && chars[0] <= '\u{7f}' && chars[1] <= '\u{7f}' && chars[2] <= '\u{7f}'
    }
}

/// Whether every line of the output can be cut behind its status code.
pub fn porcelain_fits(stdout: &str) -> (fits: bool)
    ensures
        fits == is_porcelain(stdout@),
{
    let found = lines(stdout);
    let ghost all = found.deep_view();
    let mut i: usize = 0;
    while i < found.len()
        invariant
            i <= found@.len(),
            all == found.deep_view(),
            all == lines_of(stdout@),
            forall|j: int| 0 <= j < i ==> is_cuttable(#[trigger] all[j]),
        decreases found@.len() - i,
    {
        assert(all[i as int] == found@[i as int]@);
        if !cuttable(found[i].as_str()) {
            assert(!is_cuttable(lines_of(stdout@)[i as int]));
            return false;
        }
        i = i + 1;
    }
    true
}

fn parse_porcelain_line(line: &str) -> (entry: Option<(String, String)>)
    requires
        is_cuttable(line@),
    ensures
        entry.deep_view() == porcelain_entry(line@),
{
    if byte_len(line) < 4 {
        return None;
    }
    let chars = chars_of(line);
    let cut: usize = if '\u{80}' <= chars[0] && chars[0] <= '\u{7ff}' {
        1
    } else {
        2
    };
    let code = string_of(&chars, 0, cut);
    let rest = string_of(&chars, cut + 1, chars.len());
    assert(code@ =~= line@.take(code_len(line@)));
    assert(rest@ =~= line@.skip(code_len(line@) + 1));
    let path = match split_once(rest.as_str(), " -> ") {
        Some((_, new)) => new,
        None => rest,
    };
    Some((code, path))
}

/// The file that a line of `git status --porcelain` names: its status is the meaningful side of
/// the code (index, then worktree), or "?" where it is untracked.
pub open spec fn uncommitted_file(line: Seq<char>) -> Option<FileView> {
    match porcelain_entry(line) {
        None => None,
        Some((code, path)) => Some(
            FileView {
                status: if code == "??"@ {
                    "?"@
                } else if trimmed(code).len() > 0 {
                    seq![trimmed(code)[0]]
                } else {
                    "M"@
                },
                path,
                untracked: code == "??"@,
            },
        ),
    }
}

/// The uncommitted and untracked files that `git status --porcelain` names.
pub open spec fn uncommitted_told(run: Result<OutputView, Seq<char>>) -> Seq<FileView> {
    match success_text(run) {
        Some(text) => lines_of(text).filter_map(|line: Seq<char>| uncommitted_file(line)),
        None => Seq::empty(),
    }
}

fn parse_uncommitted_line(line: &str) -> (file: Option<DiffFile>)
    requires
        is_cuttable(line@),
    ensures
        file.deep_view() == uncommitted_file(line@),
{
    match parse_porcelain_line(line) {
        None => None,
        Some((code, path)) => {
            let untracked = same(code.as_str(), "??");
            let status = if untracked {
                "?".to_string()
            } else {
                let letters = chars_of(trim(code.as_str()).as_str());
                if letters.len() > 0 {
                    let letter = string_of(&letters, 0, 1);
                    assert(letter@ =~= seq![letters@[0]]);
                    letter
                } else {
                    "M".to_string()
                }
            };
            let file = DiffFile { status, path, untracked };
            assert(file.deep_view() =~= uncommitted_file(line@)->0);
            Some(file)
        },
    }
}

/// All uncommitted + untracked files, by what `git status --porcelain --untracked-files=all`
/// wrote, for the uncommitted diff view; none where it failed.
pub fn uncommitted_files(run: &Result<CommandOutput, String>) -> (files: Vec<DiffFile>)
    requires
        success_text(told(*run)) matches Some(text) ==> is_porcelain(text),
    ensures
        files.deep_view() == uncommitted_told(told(*run)),
{
    let mut files: Vec<DiffFile> = Vec::new();
    let text = match text_on_success(run) {
        Some(text) => text,
        None => {
            assert(files.deep_view() =~= Seq::empty());
            return files;
        },
    };
    let found = lines(text.as_str());
    let ghost all = found.deep_view();
    let ghost parse = |line: Seq<char>| uncommitted_file(line);
    let mut i: usize = 0;
    while i < found.len()
        invariant
            i <= found@.len(),
            all == found.deep_view(),
            all == lines_of(text@),
            is_porcelain(text@),
            parse == (|line: Seq<char>| uncommitted_file(line)),
            files.deep_view() =~= all.take(i as int).filter_map(parse),
        decreases found@.len() - i,
    {
        proof {
            assert(all[i as int] == found@[i as int]@);
            assert(is_cuttable(lines_of(text@)[i as int]));
            all.lemma_filter_map_take_succ(parse, i as int);
        }
        if let Some(file) = parse_uncommitted_line(found[i].as_str()) {
            let ghost before = files.deep_view();
            let ghost one = file.deep_view();
            files.push(file);
            assert(files.deep_view() =~= before.push(one));
        }
        i = i + 1;
    }
    assert(all.take(i as int) =~= all);
    files
}

/// The path of a line, where the line is that of an untracked file or not, as `untracked` says.
pub open spec fn discarded_path(line: Seq<char>, untracked: bool) -> Option<Seq<char>> {
    match porcelain_entry(line) {
        Some((code, path)) => if (code == "??"@) == untracked {
            Some(path)
        } else {
            None
        },
        None => None,
    }
}

/// The files that a discard would restore, or those that it would delete.
pub open spec fn discarded(text: Seq<char>, untracked: bool) -> Seq<Seq<char>> {
    lines_of(text).filter_map(|line: Seq<char>| discarded_path(line, untracked))
}

/// What a discard would touch: the tracked files that it would restore, and the untracked ones
/// that it would delete.
pub open spec fn discard_told(run: Result<OutputView, Seq<char>>) -> Result<
    (Seq<Seq<char>>, Seq<Seq<char>>),
    Seq<char>,
> {
    match run {
        Err(message) => Err(message),
        Ok(output) => if output.success {
            Ok((discarded(output.stdout, false), discarded(output.stdout, true)))
        } else {
            Err(trimmed(output.stderr))
        },
    }
}

/// The working-tree changes a discard would touch: `restore` lists tracked files that
/// `reset --hard` would revert, `delete` lists untracked files that `clean -fd` would remove.
/// Both are paths relative to the repo root, parsed from `git status --porcelain`.
pub fn discard_status(run: &Result<CommandOutput, String>) -> (changes: Result<
    (Vec<String>, Vec<String>),
    String,
>)
    requires
        success_text(told(*run)) matches Some(text) ==> is_porcelain(text),
    ensures
        told(changes) == discard_told(told(*run)),
{
    let output = match run {
        Err(message) => {
            return Err(message.clone());
        },
        Ok(output) => output,
    };
    if !output.success {
        return Err(trim(output.stderr.as_str()));
    }
    let found = lines(output.stdout.as_str());
    let ghost all = found.deep_view();
    let ghost restored = |line: Seq<char>| discarded_path(line, false);
    let ghost deleted = |line: Seq<char>| discarded_path(line, true);
    let mut restore: Vec<String> = Vec::new();
    let mut delete: Vec<String> = Vec::new();
    let mut i: usize = 0;
    while i < found.len()
        invariant
            i <= found@.len(),
            all == found.deep_view(),
            all == lines_of(output.stdout@),
            is_porcelain(output.stdout@),
            restored == (|line: Seq<char>| discarded_path(line, false)),
            deleted == (|line: Seq<char>| discarded_path(line, true)),
            restore.deep_view() =~= all.take(i as int).filter_map(restored),
            delete.deep_view() =~= all.take(i as int).filter_map(deleted),
        decreases found@.len() - i,
    {
        proof {
            assert(all[i as int] == found@[i as int]@);
            assert(is_cuttable(lines_of(output.stdout@)[i as int]));
            all.lemma_filter_map_take_succ(restored, i as int);
            all.lemma_filter_map_take_succ(deleted, i as int);
        }
        if let Some((code, path)) = parse_porcelain_line(found[i].as_str()) {
            let ghost one = path@;
            if same(code.as_str(), "??") {
                let ghost before = delete.deep_view();
                delete.push(path);
                assert(delete.deep_view() =~= before.push(one));
            } else {
                let ghost before = restore.deep_view();
                restore.push(path);
                assert(restore.deep_view() =~= before.push(one));
            }
        }
        i = i + 1;
    }
    assert(all.take(i as int) =~= all);
    Ok((restore, delete))
}

// ---------------------------------------------------------------------------
// Stashes

/// The stash entries that `git stash list --format=%gs` names.
pub open spec fn stashes_told(run: Result<OutputView, Seq<char>>) -> Seq<StashView> {
    match success_text(run) {
        Some(text) => nonblank_lines_of(text).map(
            |index: int, label: Seq<char>| StashView { index: index as usize, label },
        ),
        None => Seq::empty(),
    }
}

/// The stash entries, newest (`stash@{0}`) first, by what `git stash list --format=%gs` wrote;
/// none where it failed.
pub fn stashes(run: &Result<CommandOutput, String>) -> (found: Vec<StashInfo>)
    ensures
        found.deep_view() == stashes_told(told(*run)),
{
    let mut found: Vec<StashInfo> = Vec::new();
    let text = match text_on_success(run) {
        Some(text) => text,
        None => {
            assert(found.deep_view() =~= Seq::empty());
            return found;
        },
    };
    let labels = nonblank_lines(text.as_str());
    let ghost all = labels.deep_view();
    let mut i: usize = 0;
    while i < labels.len()
        invariant
            i <= labels@.len(),
            all == labels.deep_view(),
            found@.len() == i,
            forall|j: int|
                0 <= j < i ==> (#[trigger] found@[j]).deep_view() == (StashView {
                    index: j as usize,
                    label: all[j],
                }),
        decreases labels@.len() - i,
    {
        assert(all[i as int] == labels@[i as int]@);
        found.push(StashInfo { index: i, label: labels[i].clone() });
        i = i + 1;
    }
    assert(found.deep_view() =~= all.map(
        |index: int, label: Seq<char>| StashView { index: index as usize, label },
    ));
    found
}

/// The files in a stash entry, relative to the repo root.
pub open spec fn stash_names_told(run: Result<OutputView, Seq<char>>) -> Result<
    Seq<Seq<char>>,
    Seq<char>,
> {
    match run {
        Err(message) => Err(message),
        Ok(output) => if output.success {
            Ok(lines_of(output.stdout).filter(|word: Seq<char>| word.len() > 0))
        } else {
            Err(trimmed(output.stderr))
        },
    }
}

/// The files contained in a stash entry, relative to the repo root, by what
/// `git stash show --name-only` wrote. Used to show what a drop would throw away.
pub fn stash_files(run: &Result<CommandOutput, String>) -> (files: Result<Vec<String>, String>)
    ensures
        told(files) == stash_names_told(told(*run)),
{
    match run {
        Err(message) => Err(message.clone()),
        Ok(output) => {
            if output.success {
                Ok(without_empty(&lines(output.stdout.as_str())))
            } else {
                Err(trim(output.stderr.as_str()))
            }
        },
    }
}

// ---------------------------------------------------------------------------
// The info panel

/// Whether a branch does not count as a feature branch.
pub open spec fn is_excluded(branch: Seq<char>) -> bool {
    branch == "main"@ || branch == "dev"@
}

/// How many feature branches `git for-each-ref` lists.
pub open spec fn feature_count(text: Seq<char>) -> u32 {
    low_bits(trimmed_lines_of(text).filter(|name: Seq<char>| !is_excluded(name)).len())
}

fn count_features(text: &str) -> (count: u32)
    ensures
        count == feature_count(text@),
{
    let names = trimmed_lines(text);
    let ghost all = names.deep_view();
    let ghost keep = |name: Seq<char>| !is_excluded(name);
    let mut kept: Vec<String> = Vec::new();
    let mut i: usize = 0;
    assert(all.take(0).filter(keep) =~= Seq::<Seq<char>>::empty()) by {
        reveal(Seq::filter);
    }
    while i < names.len()
        invariant
            i <= names@.len(),
            all == names.deep_view(),
            keep == (|name: Seq<char>| !is_excluded(name)),
            kept.deep_view() =~= all.take(i as int).filter(keep),
        decreases names@.len() - i,
    {
        proof {
            assert(all[i as int] == names@[i as int]@);
            assert(all.take(i + 1) =~= all.take(i as int).push(all[i as int]));
            all.take(i as int).lemma_filter_push(all[i as int], keep);
        }
        if !(same(names[i].as_str(), "main") || same(names[i].as_str(), "dev")) {
            let ghost before = kept.deep_view();
            let name = names[i].clone();
            kept.push(name);
            assert(kept.deep_view() =~= before.push(name@));
        }
        i = i + 1;
    }
    assert(all.take(i as int) =~= all);
    assert(kept.deep_view().len() == kept@.len());
    count_of(&kept)
}

/// The details of a repo, by what the five commands that are asked for them wrote. Each command
/// that fails leaves its part as it is before anything is known.
pub open spec fn details_told(
    log: Result<OutputView, Seq<char>>,
    distance: Result<OutputView, Seq<char>>,
    status: Result<OutputView, Seq<char>>,
    stash: Result<OutputView, Seq<char>>,
    heads: Result<OutputView, Seq<char>>,
) -> DetailsView {
    let commit = match success_text(log) {
        Some(line) => commit_fields(line),
        None => (Seq::empty(), Seq::empty(), Seq::empty(), Seq::empty(), 0i64),
    };
    let sides = match success_text(distance) {
        Some(text) => distance_in(text),
        None => (None, None),
    };
    DetailsView {
        commit_hash: commit.0,
        commit_subject: commit.1,
        commit_author: commit.2,
        commit_rel_date: commit.3,
        commit_timestamp: commit.4,
        behind: sides.0,
        ahead: sides.1,
        dirty_count: entry_count(status),
        stash_count: entry_count(stash),
        branch_count: match success_text(heads) {
            Some(text) => feature_count(text),
            None => 0,
        },
    }
}

/// The info-panel details for one repo: last commit, ahead/behind vs upstream, dirty file count,
/// stash count and feature branch count. Best-effort — failures leave defaults.
pub fn repo_details(
    log: &Result<CommandOutput, String>,
    distance: &Result<CommandOutput, String>,
    status: &Result<CommandOutput, String>,
    stash: &Result<CommandOutput, String>,
    heads: &Result<CommandOutput, String>,
) -> (details: RepoDetails)
    ensures
        details.deep_view() == details_told(
            told(*log),
            told(*distance),
            told(*status),
            told(*stash),
            told(*heads),
        ),
{
    let mut details = RepoDetails::default();
    if let Some(line) = text_on_success(log) {
        let (hash, subject, author, rel_date, timestamp) = parse_commit_line(line.as_str());
        details.commit_hash = hash;
        details.commit_subject = subject;
        details.commit_author = author;
        details.commit_rel_date = rel_date;
        details.commit_timestamp = timestamp;
    }
    if let Some(text) = text_on_success(distance) {
        let (behind, ahead) = parse_ahead_behind(text.as_str());
        details.behind = behind;
        details.ahead = ahead;
    }
    details.dirty_count = count_entries(status);
    details.stash_count = count_entries(stash);
    if let Some(text) = text_on_success(heads) {
        details.branch_count = count_features(text.as_str());
    }
    details
}

// ---------------------------------------------------------------------------
// Diffs

/// The lines of a diff, or `none` where there are none.
pub open spec fn lines_or(text: Seq<char>, none: Seq<char>) -> Seq<Seq<char>> {
    if lines_of(text).len() == 0 {
        seq![none]
    } else {
        lines_of(text)
    }
}

fn shown_lines(text: &str, none: &str) -> (shown: Vec<String>)
    ensures
        shown.deep_view() == lines_or(text@, none@),
{
    let found = lines(text);
    if found.len() == 0 {
        assert(found.deep_view().len() == 0);
        let shown = vec![none.to_string()];
        assert(shown.deep_view() =~= seq![none@]);
        shown
    } else {
        assert(found.deep_view().len() > 0);
        found
    }
}

fn unavailable() -> (shown: Vec<String>)
    ensures
        shown.deep_view() == seq!["(diff unavailable)"@],
{
    let shown = vec!["(diff unavailable)".to_string()];
    assert(shown.deep_view() =~= seq!["(diff unavailable)"@]);
    shown
}

/// The lines that a diff shows: what git wrote, whatever its exit status, or `none` where it
/// wrote nothing.
pub open spec fn diff_told(run: Result<OutputView, Seq<char>>, none: Seq<char>) -> Seq<Seq<char>> {
    match run {
        Ok(output) => lines_or(output.stdout, none),
        Err(_) => seq!["(diff unavailable)"@],
    }
}

/// The lines of the diff of a repo for the info panel.
pub fn repo_diff_lines(run: &Result<CommandOutput, String>) -> (shown: Vec<String>)
    ensures
        shown.deep_view() == diff_told(told(*run), "(no changes)"@),
{
    match run {
        Ok(output) => shown_lines(output.stdout.as_str(), "(no changes)"),
        Err(_) => unavailable(),
    }
}

/// The lines of the diff of an untracked file against nothing. Git exits with failure where the
/// files differ, so the exit status does not count.
pub fn new_file_diff_lines(run: &Result<CommandOutput, String>) -> (shown: Vec<String>)
    ensures
        shown.deep_view() == diff_told(told(*run), "(new file)"@),
{
    match run {
        Ok(output) => shown_lines(output.stdout.as_str(), "(new file)"),
        Err(_) => unavailable(),
    }
}

/// The lines that a diff of a file shows, with placeholders for a failure and for no output.
pub open spec fn file_diff_told(run: Result<OutputView, Seq<char>>) -> Seq<Seq<char>> {
    match run {
        Err(_) => seq!["(diff unavailable)"@],
        Ok(output) => if output.success {
            lines_or(output.stdout, "(no changes)"@)
        } else if is_blank(output.stderr) {
            seq!["(diff unavailable)"@]
        } else {
            seq!["(diff failed: "@ + trimmed(output.stderr) + ")"@]
        },
    }
}

/// The lines of a diff of a file, with friendly placeholders for empty output or failure.
pub fn file_diff_lines(run: &Result<CommandOutput, String>) -> (shown: Vec<String>)
    ensures
        shown.deep_view() == file_diff_told(told(*run)),
{
    match run {
        Err(_) => unavailable(),
        Ok(output) => {
            if output.success {
                return shown_lines(output.stdout.as_str(), "(no changes)");
            }
            let reason = trim(output.stderr.as_str());
            if reason.as_str().is_empty() {
                unavailable()
            } else {
                let line = "(diff failed: ".to_string().concat(reason.as_str()).concat(")");
                let ghost text = line@;
                let shown = vec![line];
                assert(shown.deep_view() =~= seq![text]);
                shown
            }
        },
    }
}

// ---------------------------------------------------------------------------
// The base branch

/// The branches that may be the base branch of a repo, where its remote names none.
pub const BASE_CANDIDATES: [&'static str; 6] = [
    "origin/main",
    "origin/master",
    "origin/dev",
    "main",
    "master",
    "dev",
];

/// The remote's default branch, by what `git symbolic-ref --short refs/remotes/origin/HEAD`
/// wrote.
pub open spec fn remote_head(run: Result<OutputView, Seq<char>>) -> Option<Seq<char>> {
    match success_text(run) {
        Some(text) => unless_empty(trimmed(text)),
        None => None,
    }
}

/// The search for the base branch of a repo.
pub enum BaseSearch {
    /// Ask for the remote's default branch.
    RemoteHead,
    /// Ask whether the candidate at this place exists.
    Candidate(usize),
    /// The search is over.
    Over(Option<String>),
}

/// What a `BaseSearch` holds.
pub enum BaseView {
    RemoteHead,
    Candidate(int),
    Over(Option<Seq<char>>),
}

impl DeepView for BaseSearch {
    type V = BaseView;

    open spec fn deep_view(&self) -> BaseView {
        match self {
            BaseSearch::RemoteHead => BaseView::RemoteHead,
            BaseSearch::Candidate(place) => BaseView::Candidate(*place as int),
            BaseSearch::Over(branch) => BaseView::Over(branch.deep_view()),
        }
    }
}

/// The question about the candidate at `place`, or the end of the search behind the last one.
pub open spec fn ask_candidate(place: int) -> BaseView {
    if place < BASE_CANDIDATES@.len() {
        BaseView::Candidate(place)
    } else {
        BaseView::Over(None)
    }
}

impl BaseView {
    /// How the search goes on when the answer to its question has come back.
    pub open spec fn answered(self, run: Result<OutputView, Seq<char>>) -> BaseView {
        match self {
            BaseView::RemoteHead => match remote_head(run) {
                Some(branch) => BaseView::Over(Some(branch)),
                None => ask_candidate(0),
            },
            BaseView::Candidate(place) => if success_text(run) is Some {
                BaseView::Over(Some(BASE_CANDIDATES@[place]@))
            } else {
                ask_candidate(place + 1)
            },
            BaseView::Over(branch) => BaseView::Over(branch),
        }
    }
}

impl BaseSearch {
    /// The place of the candidate that is asked for is one of the list.
    pub open spec fn wf(self) -> bool {
        self matches BaseSearch::Candidate(place) ==> place < BASE_CANDIDATES@.len()
    }

    /// How the search goes on when the answer to its question has come back: the remote's default
    /// branch if it is set, otherwise the first candidate that exists.
    pub fn answer(self, run: &Result<CommandOutput, String>) -> (next: BaseSearch)
        requires
            self.wf(),
        ensures
            next.wf(),
            next.deep_view() == self.deep_view().answered(told(*run)),
    {
        match self {
            BaseSearch::RemoteHead => {
                if let Some(text) = text_on_success(run) {
                    let head = trim(text.as_str());
                    if !head.as_str().is_empty() {
                        return BaseSearch::Over(Some(head));
                    }
                }
                BaseSearch::Candidate(0)
            },
            BaseSearch::Candidate(place) => {
                let exists_ = match run {
                    Ok(output) => output.success,
                    Err(_) => false,
                };
                if exists_ {
                    BaseSearch::Over(Some(BASE_CANDIDATES[place].to_string()))
                } else if place + 1 < BASE_CANDIDATES.len() {
                    BaseSearch::Candidate(place + 1)
                } else {
                    BaseSearch::Over(None)
                }
            },
            BaseSearch::Over(branch) => BaseSearch::Over(branch),
        }
    }
}

/// The point where a branch forked from its base, by what `git merge-base` wrote; the base itself
/// where it failed, and none where it could not be run.
pub open spec fn merge_base_told(run: Result<OutputView, Seq<char>>, base: Seq<char>) -> Option<
    Seq<char>,
> {
    match run {
        Ok(output) => if output.success {
            Some(trimmed(output.stdout))
        } else {
            Some(base)
        },
        Err(_) => None,
    }
}

/// The point where a branch forked from its base. Falls back to the base branch ref itself.
pub fn merge_base(run: &Result<CommandOutput, String>, base: &str) -> (point: Option<String>)
    ensures
        point.deep_view() == merge_base_told(told(*run), base@),
{
    match run {
        Ok(output) => {
            if output.success {
                Some(trim(output.stdout.as_str()))
            } else {
                Some(base.to_string())
            }
        },
        Err(_) => None,
    }
}

} // verus!

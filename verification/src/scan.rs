//! The scan for repositories and worktrees: which directories are looked into, and which count.

use vstd::prelude::*;
use vstd::string::*;

use crate::order::{
    arranged, is_sorted_order, lemma_sorted_order_agrees, lemma_text_order, lemma_text_order_strict,
    lemma_text_order_total, place_order, sort_order, text_before, text_less, Ordered,
};
use crate::text::{around_first, contains, has_text, same, split_once, starts_with};

verus! {

/// Directory names never descended into during the recursive scan (besides hidden dirs and
/// `*.worktrees`): heavy dependency/build dirs that never hold sibling repos worth pulling.
pub const PRUNE_DIRS: [&'static str; 11] = [
    "node_modules",
    "vendor",
    "target",
    "dist",
    "build",
    "out",
    "__pycache__",
    ".venv",
    "venv",
    "bower_components",
    ".terraform",
];

/// A directory of this name is looked into: it is not hidden, holds no worktrees and is not
/// pruned.
pub open spec fn is_descended(name: Seq<char>) -> bool {
    &&& !"."@.is_prefix_of(name)
    &&& !has_text(name, ".worktrees"@)
    &&& forall|i: int| 0 <= i < PRUNE_DIRS@.len() ==> (#[trigger] PRUNE_DIRS@[i])@ != name
}

/// Whether the recursive scan should descend into a child directory named `name`.
/// Hidden dirs (`.`-prefixed, including `.git`), `*.worktrees`, and `PRUNE_DIRS` are skipped.
pub fn should_descend(name: &str) -> (descend: bool)
    ensures
        descend == is_descended(name@),
{
    if starts_with(name, ".") || contains(name, ".worktrees") {
        return false;
    }
    let mut i: usize = 0;
    while i < PRUNE_DIRS.len()
        invariant
            i <= PRUNE_DIRS@.len(),
            !"."@.is_prefix_of(name@),
            !has_text(name@, ".worktrees"@),
            forall|j: int| 0 <= j < i ==> (#[trigger] PRUNE_DIRS@[j])@ != name@,
        decreases PRUNE_DIRS@.len() - i,
    {
        if same(PRUNE_DIRS[i], name) {
            return false;
        }
        i = i + 1;
    }
    true
}

// ---------------------------------------------------------------------------
// The walk

/// What the scan does with a directory it has come to.
#[derive(Debug, Clone, Copy, PartialEq, Eq, Structural)]
pub enum Look {
    /// It is a repo: hand it out, and look no further into it.
    Found,
    /// It lies too deep: leave it.
    Leave,
    /// Look into those of its directories that `should_descend` names.
    Enter,
}

/// What the scan does with a directory at `depth` below its root.
pub open spec fn look_of(depth: nat, max_depth: nat, holds_git: bool) -> Look {
    if depth >= 1 && holds_git {
        Look::Found
    } else if depth >= max_depth {
        Look::Leave
    } else {
        Look::Enter
    }
}

/// What the scan does with a directory at `depth` below its root: one that holds `.git` is a
/// repo, except the root itself.
pub fn look(depth: usize, max_depth: usize, holds_git: bool) -> (next: Look)
    ensures
        next == look_of(depth as nat, max_depth as nat, holds_git),
{
    if depth >= 1 && holds_git {
        return Look::Found;
    }
    if depth >= max_depth {
        return Look::Leave;
    }
    Look::Enter
}

/// A directory: whether it holds `.git`, and its entries by name, with the directories among
/// them.
pub struct DirTree {
    pub holds_git: bool,
    pub entries: Seq<(Seq<char>, Option<DirTree>)>,
}

/// The directory `name` in `tree` is `child`.
pub open spec fn has_child(tree: DirTree, name: Seq<char>, child: DirTree) -> bool {
    tree.entries.contains((name, Some(child)))
}

/// The scan, come to `tree` at `depth`, finds the repo at `path` below it.
pub open spec fn finds(tree: DirTree, depth: nat, max_depth: nat, path: Seq<Seq<char>>) -> bool
    decreases path.len(),
{
    match look_of(depth, max_depth, tree.holds_git) {
        Look::Found => path.len() == 0,
        Look::Leave => false,
        Look::Enter => path.len() > 0 && is_descended(path[0]) && exists|child: DirTree|
            #[trigger] has_child(tree, path[0], child) && finds(
                child,
                depth + 1,
                max_depth,
                path.drop_first(),
            ),
    }
}

/// A directory with `.git` lies at `path` below `tree`, and none with `.git` on the way to it.
pub open spec fn outermost_repo(tree: DirTree, path: Seq<Seq<char>>) -> bool
    decreases path.len(),
{
    path.len() > 0 && exists|child: DirTree|
        #[trigger] has_child(tree, path[0], child) && if path.len() == 1 {
            child.holds_git
        } else {
            !child.holds_git && outermost_repo(child, path.drop_first())
        }
}

// ---------------------------------------------------------------------------
// Worktrees beside a repository

/// The repo whose worktrees a directory holds: what stands before `.worktrees` in its name.
pub open spec fn owner_of(dir_name: Seq<char>) -> Option<Seq<char>> {
    match around_first(dir_name, ".worktrees"@) {
        Some((repo, _)) => Some(repo),
        None => None,
    }
}

/// The repo whose worktrees a directory holds; none for a directory without `.worktrees` in its
/// name.
pub fn worktree_owner(dir_name: &str) -> (repo: Option<String>)
    ensures
        repo.deep_view() == owner_of(dir_name@),
{
    match split_once(dir_name, ".worktrees") {
        Some((repo, _)) => Some(repo),
        None => None,
    }
}

/// A worktree by repo and branch.
pub struct WorktreeKey {
    pub repo: String,
    pub branch: String,
}

/// By repo, and by branch within a repo.
pub open spec fn worktree_before(a: (Seq<char>, Seq<char>), b: (Seq<char>, Seq<char>)) -> bool {
    text_before(a.0, b.0) || a.0 == b.0 && text_before(a.1, b.1)
}

impl Ordered for WorktreeKey {
    open spec fn before(&self, other: &Self) -> bool {
        worktree_before((self.repo@, self.branch@), (other.repo@, other.branch@))
    }

    proof fn order_law(a: &Self, b: &Self, c: &Self) {
        lemma_text_order(a.repo@, b.repo@, c.repo@);
        if a.repo@ == c.repo@ {
            lemma_text_order_total(a.repo@, b.repo@);
            lemma_text_order(a.branch@, b.branch@, c.branch@);
        }
    }

    proof fn strict_law(a: &Self, b: &Self) {
        lemma_text_order_strict(a.repo@, b.repo@);
        lemma_text_order_strict(a.branch@, b.branch@);
    }

    fn is_before(&self, other: &Self) -> (less: bool) {
        if text_less(self.repo.as_str(), other.repo.as_str()) {
            return true;
        }
        same(self.repo.as_str(), other.repo.as_str()) && text_less(
            self.branch.as_str(),
            other.branch.as_str(),
        )
    }
}

/// The order of a list of worktrees.
pub open spec fn worktree_order(found: Seq<(Seq<char>, Seq<char>)>) -> spec_fn(int, int) -> bool {
    |i: int, j: int| worktree_before(found[i], found[j])
}

/// The worktrees (repo and branch) in the order of their repos, and of their branches within a
/// repo.
pub fn sort_worktrees(found: &Vec<(String, String)>) -> (sorted: Vec<(String, String)>)
    ensures
        exists|order: Seq<usize>| #[trigger]
            is_sorted_order(found@.len(), order, worktree_order(found.deep_view()))
                && sorted.deep_view() == arranged(found.deep_view(), order),
{
    let ghost all = found.deep_view();
    let mut keys: Vec<WorktreeKey> = Vec::new();
    let mut i: usize = 0;
    while i < found.len()
        invariant
            i <= found@.len(),
            keys@.len() == i,
            all == found.deep_view(),
            forall|j: int|
                0 <= j < i ==> (#[trigger] keys@[j]).repo@ == all[j].0 && keys@[j].branch@
                    == all[j].1,
        decreases found@.len() - i,
    {
        assert(all[i as int] == found@[i as int].deep_view());
        keys.push(WorktreeKey { repo: found[i].0.clone(), branch: found[i].1.clone() });
        i = i + 1;
    }
    let order = sort_order(&keys);
    let mut sorted: Vec<(String, String)> = Vec::new();
    let mut k: usize = 0;
    while k < order.len()
        invariant
            k <= order@.len(),
            sorted@.len() == k,
            all == found.deep_view(),
            forall|j: int| 0 <= j < order@.len() ==> 0 <= #[trigger] order@[j] < found@.len(),
            forall|j: int|
                0 <= j < k ==> (#[trigger] sorted@[j]).deep_view() == all[order@[j] as int],
        decreases order@.len() - k,
    {
        let pair = (found[order[k]].0.clone(), found[order[k]].1.clone());
        assert(pair.deep_view() == all[order@[k as int] as int]);
        sorted.push(pair);
        k = k + 1;
    }
    proof {
        lemma_sorted_order_agrees(found@.len(), order@, place_order(keys@), worktree_order(all));
        assert(sorted.deep_view() =~= arranged(all, order@));
    }
    sorted
}

// ---------------------------------------------------------------------------
// Laws

/// The scan from its root finds exactly the repos that it should: they lie at most `max_depth`
/// below the root, no directory on the way to one is hidden, pruned or holds worktrees, and none
/// lies inside another. The root itself is never found.
pub proof fn law_scan_finds_outermost_repos(tree: DirTree, max_depth: nat, path: Seq<Seq<char>>)
    ensures
        finds(tree, 0, max_depth, path) <==> 1 <= path.len() <= max_depth && (forall|i: int|
            0 <= i < path.len() ==> is_descended(#[trigger] path[i])) && outermost_repo(tree, path),
{
    lemma_scan_from(tree, 0, max_depth, path);
}

proof fn lemma_scan_from(tree: DirTree, depth: nat, max_depth: nat, path: Seq<Seq<char>>)
    requires
        depth == 0 || !tree.holds_git,
    ensures
        finds(tree, depth, max_depth, path) <==> 1 <= path.len() && depth + path.len() <= max_depth
            && (forall|i: int| 0 <= i < path.len() ==> is_descended(#[trigger] path[i]))
            && outermost_repo(tree, path),
    decreases path.len(),
{
    if depth < max_depth && path.len() > 0 {
        let rest = path.drop_first();
        assert forall|child: DirTree| #[trigger] has_child(tree, path[0], child) implies (finds(
            child,
            depth + 1,
            max_depth,
            rest,
        ) <==> if path.len() == 1 {
            child.holds_git
        } else {
            !child.holds_git && depth + path.len() <= max_depth && (forall|i: int|
                0 <= i < rest.len() ==> is_descended(#[trigger] rest[i])) && outermost_repo(
                child,
                rest,
            )
        }) by {
            if !child.holds_git {
                lemma_scan_from(child, depth + 1, max_depth, rest);
            }
        }
        if finds(tree, depth, max_depth, path) {
            let child = choose|child: DirTree|
                #[trigger] has_child(tree, path[0], child) && finds(
                    child,
                    depth + 1,
                    max_depth,
                    rest,
                );
            assert forall|i: int| 0 <= i < path.len() implies is_descended(#[trigger] path[i]) by {
                if i > 0 {
                    assert(path[i] == rest[i - 1]);
                }
            }
            assert(has_child(tree, path[0], child));
            assert(outermost_repo(child, rest) || path.len() == 1);
        }
        if depth + path.len() <= max_depth && (forall|i: int|
            0 <= i < path.len() ==> is_descended(#[trigger] path[i])) && outermost_repo(tree, path) {
            let child = choose|child: DirTree|
                #[trigger] has_child(tree, path[0], child) && if path.len() == 1 {
                    child.holds_git
                } else {
                    !child.holds_git && outermost_repo(child, rest)
                };
            assert forall|i: int| 0 <= i < rest.len() implies is_descended(#[trigger] rest[i]) by {
                assert(rest[i] == path[i + 1]);
            }
            assert(finds(child, depth + 1, max_depth, rest));
        }
    }
}

/// A name is looked into exactly if it does not begin with a dot, ".worktrees" does not occur in
/// it, and it is none of the eleven names of directories that are built or fetched. So a name with
/// a dot further on, such as "next.js", is looked into.
pub proof fn law_plain_names_are_entered(name: Seq<char>)
    ensures
        is_descended(name) <==> {
            &&& name.len() == 0 || name[0] != '.'
            &&& !exists|before: Seq<char>, behind: Seq<char>|
                name == #[trigger] (before + ".worktrees"@ + behind)
            &&& name != "node_modules"@
            &&& name != "vendor"@
            &&& name != "target"@
            &&& name != "dist"@
            &&& name != "build"@
            &&& name != "out"@
            &&& name != "__pycache__"@
            &&& name != ".venv"@
            &&& name != "venv"@
            &&& name != "bower_components"@
            &&& name != ".terraform"@
        },
{
    crate::text::law_text_stands_between_sides(name, ".worktrees"@);
    reveal_strlit(".");
    assert("."@ =~= seq!['.']);
    if name.len() > 0 {
        assert("."@.is_prefix_of(name) <==> name[0] == '.') by {
            if name[0] == '.' {
                assert(name.subrange(0, 1) =~= "."@);
            }
            if "."@.is_prefix_of(name) {
                assert(name.subrange(0, 1)[0] == "."@[0]);
            }
        }
    }
    let names = PRUNE_DIRS@;
    assert(names.len() == 11);
    assert(names[0]@ == "node_modules"@);
    assert(names[1]@ == "vendor"@);
    assert(names[2]@ == "target"@);
    assert(names[3]@ == "dist"@);
    assert(names[4]@ == "build"@);
    assert(names[5]@ == "out"@);
    assert(names[6]@ == "__pycache__"@);
    assert(names[7]@ == ".venv"@);
    assert(names[8]@ == "venv"@);
    assert(names[9]@ == "bower_components"@);
    assert(names[10]@ == ".terraform"@);
}

/// A directory below the root that holds `.git` is found by any scan that goes below its root, if
/// its name does not begin with a dot, ".worktrees" does not occur in it and it is none of the
/// eleven names.
pub proof fn law_repo_below_the_root_is_found(
    tree: DirTree,
    name: Seq<char>,
    child: DirTree,
    max_depth: nat,
)
    requires
        tree.entries.contains((name, Some(child))),
        child.holds_git,
        max_depth >= 1,
        name.len() > 0,
        name[0] != '.',
        !has_text(name, ".worktrees"@),
        name != "node_modules"@,
        name != "vendor"@,
        name != "target"@,
        name != "dist"@,
        name != "build"@,
        name != "out"@,
        name != "__pycache__"@,
        name != "venv"@,
        name != "bower_components"@,
    ensures
        finds(tree, 0, max_depth, seq![name]),
{
    law_plain_names_are_entered(name);
    crate::text::law_text_stands_between_sides(name, ".worktrees"@);
    reveal_strlit(".venv");
    reveal_strlit(".terraform");
    assert(is_descended(name));
    assert(has_child(tree, name, child));
    assert(seq![name].drop_first() =~= Seq::empty());
    assert(finds(child, 1, max_depth, Seq::empty()));
    assert(finds(child, 1, max_depth, seq![name].drop_first()));
}

/// What a scan of a directory finds, a scan of the directory around it finds one level further
/// down, unless the directory is itself a repository or is not looked into; and a scan finds
/// nothing else.
pub proof fn law_scan_goes_down(
    tree: DirTree,
    name: Seq<char>,
    max_depth: nat,
    path: Seq<Seq<char>>,
)
    requires
        path.len() > 0,
    ensures
        finds(tree, 0, max_depth + 1, seq![name] + path) <==> is_descended(name) && exists|
            child: DirTree,
        |
            tree.entries.contains((name, Some(child))) && !child.holds_git && #[trigger] finds(
                child,
                0,
                max_depth,
                path,
            ),
{
    let whole = seq![name] + path;
    let rest = whole.drop_first();
    assert(rest =~= path);
    assert(whole[0] == name);
    assert(look_of(0, max_depth + 1, tree.holds_git) == Look::Enter);
    assert forall|child: DirTree| #[trigger] has_child(tree, name, child) implies (finds(
        child,
        1,
        max_depth + 1,
        path,
    ) <==> !child.holds_git && finds(child, 0, max_depth, path)) by {
        if !child.holds_git {
            lemma_scan_from(child, 1, max_depth + 1, path);
            lemma_scan_from(child, 0, max_depth, path);
        }
    }
    if finds(tree, 0, max_depth + 1, whole) {
        let child = choose|child: DirTree|
            #[trigger] has_child(tree, whole[0], child) && finds(
                child,
                0 + 1,
                max_depth + 1,
                rest,
            );
        assert(has_child(tree, name, child) && finds(child, 0, max_depth, path));
    }
    if is_descended(name) && exists|child: DirTree|
        tree.entries.contains((name, Some(child))) && !child.holds_git && #[trigger] finds(
            child,
            0,
            max_depth,
            path,
        ) {
        let child = choose|child: DirTree|
            tree.entries.contains((name, Some(child))) && !child.holds_git && #[trigger] finds(
                child,
                0,
                max_depth,
                path,
            );
        assert(has_child(tree, name, child));
        assert(finds(child, 1, max_depth + 1, path));
        assert(has_child(tree, whole[0], child) && finds(child, 0 + 1, max_depth + 1, rest));
        assert(finds(tree, 0, max_depth + 1, whole));
    }
}

/// The scan never hands out its root, finds each directory with `.git` below it, however deep it
/// lies, and enters any other that does not yet lie as deep as the scan goes.
pub proof fn law_look_finds_enters_or_leaves(depth: nat, max_depth: nat, holds_git: bool)
    ensures
        look_of(depth, max_depth, holds_git) == Look::Found <==> holds_git && depth > 0,
        look_of(depth, max_depth, holds_git) == Look::Enter <==> (depth == 0 || !holds_git) && depth
            < max_depth,
        look_of(depth, max_depth, holds_git) == Look::Leave <==> (depth == 0 || !holds_git) && depth
            >= max_depth,
{
}

/// The owner of a directory of worktrees is what stands before the first ".worktrees" of its
/// name, whatever stands behind it; a name without ".worktrees" has no owner.
pub proof fn law_owner_stands_before_worktrees(dir_name: Seq<char>)
    ensures
        owner_of(dir_name) is None <==> !has_text(dir_name, ".worktrees"@),
        owner_of(dir_name) matches Some(repo) ==> (exists|behind: Seq<char>|
            dir_name == #[trigger] (repo + ".worktrees"@ + behind)) && !has_text(
            repo + ".worktree"@,
            ".worktrees"@,
        ),
{
    reveal_strlit(".worktrees");
    reveal_strlit(".worktree");
    crate::text::law_parted_at_first_separator(dir_name, ".worktrees"@);
    assert(".worktrees"@.drop_last() =~= ".worktree"@);
}

/// Worktrees of one repository are ordered by their branches, and any others by their
/// repositories.
pub proof fn law_worktrees_are_ordered_by_repo(
    a: (Seq<char>, Seq<char>),
    b: (Seq<char>, Seq<char>),
)
    ensures
        a.0 != b.0 ==> worktree_before(a, b) == text_before(a.0, b.0),
        a.0 == b.0 ==> worktree_before(a, b) == text_before(a.1, b.1),
{
    lemma_text_order_strict(a.0, b.0);
}

/// A deeper scan finds what a shallower one finds.
pub proof fn law_deeper_scan_finds_more(tree: DirTree, less: nat, more: nat, path: Seq<Seq<char>>)
    requires
        less <= more,
        finds(tree, 0, less, path),
    ensures
        finds(tree, 0, more, path),
{
    law_scan_finds_outermost_repos(tree, less, path);
    law_scan_finds_outermost_repos(tree, more, path);
}

/// A directory with `.git` below the root is handed out itself, and nothing inside it is.
pub proof fn law_found_repo_is_not_entered(
    tree: DirTree,
    depth: nat,
    max_depth: nat,
    path: Seq<Seq<char>>,
)
    requires
        depth >= 1,
        tree.holds_git,
    ensures
        finds(tree, depth, max_depth, path) <==> path.len() == 0,
{
}

/// The directories that hold worktrees are never descended into.
pub proof fn law_worktrees_are_not_scanned(dir_name: Seq<char>)
    ensures
        owner_of(dir_name) is Some ==> !is_descended(dir_name),
{
    crate::text::lemma_find_text(dir_name, ".worktrees"@);
}

} // verus!

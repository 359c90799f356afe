//! Laws of the whole scan: the list of the repositories that it finds below a directory.

use vstd::prelude::*;

use crate::order::{arranged, is_sorted_order, lemma_order_covers, ranked};
use crate::path::{
    is_entry_name, joined, law_relative_path_of_entry, lemma_parts_order_total, parts_before,
    parts_of, path_order,
};
use crate::scan::{
    finds, has_child, is_descended, law_deeper_scan_finds_more, law_scan_finds_outermost_repos,
    look_of, DirTree, Look,
};

verus! {

// ---------------------------------------------------------------------------
// The walk

/// The entries of a directory, and of every directory below it, have valid names, and no two
/// entries of a directory have the same.
pub open spec fn tidy(tree: DirTree) -> bool
    decreases tree,
{
    &&& forall|i: int| 0 <= i < tree.entries.len() ==> is_entry_name((#[trigger] tree.entries[i]).0)
    &&& forall|i: int, j: int|
        0 <= i < j < tree.entries.len() ==> (#[trigger] tree.entries[i]).0 != (
        #[trigger] tree.entries[j]).0
    &&& forall|i: int|
        0 <= i < tree.entries.len() ==> match (#[trigger] tree.entries[i]).1 {
            Some(child) => tidy(child),
            None => true,
        }
}

/// Paths below a directory, as seen from the directory that it stands in as `name`.
pub open spec fn inside(name: Seq<char>, paths: Seq<Seq<Seq<char>>>) -> Seq<Seq<Seq<char>>> {
    paths.map_values(|path: Seq<Seq<char>>| seq![name] + path)
}

/// What the walk hands out, come to `tree` at `depth`: the paths of the repos below it.
pub open spec fn walked(tree: DirTree, depth: nat, max_depth: nat) -> Seq<Seq<Seq<char>>>
    decreases max_depth - depth, tree.entries.len() + 1,
{
    match look_of(depth, max_depth, tree.holds_git) {
        Look::Found => seq![Seq::<Seq<char>>::empty()],
        Look::Leave => Seq::empty(),
        Look::Enter => walked_entries(tree.entries, depth, max_depth),
    }
}

/// What the walk hands out of the entries of a directory at `depth`.
pub open spec fn walked_entries(
    entries: Seq<(Seq<char>, Option<DirTree>)>,
    depth: nat,
    max_depth: nat,
) -> Seq<Seq<Seq<char>>>
    decreases max_depth - depth, entries.len(),
{
    if entries.len() == 0 || depth >= max_depth {
        Seq::empty()
    } else {
        walked_entries(entries.drop_last(), depth, max_depth) + match entries.last().1 {
            Some(child) => if is_descended(entries.last().0) {
                inside(entries.last().0, walked(child, depth + 1, max_depth))
            } else {
                Seq::empty()
            },
            None => Seq::empty(),
        }
    }
}

proof fn lemma_inside(name: Seq<char>, paths: Seq<Seq<Seq<char>>>, path: Seq<Seq<char>>)
    ensures
        inside(name, paths).contains(path) <==> path.len() > 0 && path[0] == name
            && paths.contains(path.drop_first()),
{
    if inside(name, paths).contains(path) {
        let i = inside(name, paths).index_of(path);
        assert(path == seq![name] + paths[i]);
        assert(path.drop_first() =~= paths[i]);
    }
    if path.len() > 0 && path[0] == name && paths.contains(path.drop_first()) {
        let i = paths.index_of(path.drop_first());
        assert(seq![name] + paths[i] =~= path);
        assert(inside(name, paths)[i] == path);
    }
}

/// The directory that the walk enters for the first name of `path`.
spec fn entered(
    entries: Seq<(Seq<char>, Option<DirTree>)>,
    depth: nat,
    max_depth: nat,
    path: Seq<Seq<char>>,
    child: DirTree,
) -> bool {
    entries.contains((path[0], Some(child))) && walked(child, depth + 1, max_depth).contains(
        path.drop_first(),
    )
}

proof fn lemma_walked_entries(
    entries: Seq<(Seq<char>, Option<DirTree>)>,
    depth: nat,
    max_depth: nat,
    path: Seq<Seq<char>>,
)
    requires
        depth < max_depth,
    ensures
        walked_entries(entries, depth, max_depth).contains(path) <==> path.len() > 0
            && is_descended(path[0]) && exists|child: DirTree| #[trigger]
            entered(entries, depth, max_depth, path, child),
    decreases entries.len(),
{
    if entries.len() > 0 {
        let rest = entries.drop_last();
        let last = entries.last();
        lemma_walked_entries(rest, depth, max_depth, path);
        let before = walked_entries(rest, depth, max_depth);
        let behind = match last.1 {
            Some(child) => if is_descended(last.0) {
                inside(last.0, walked(child, depth + 1, max_depth))
            } else {
                Seq::empty()
            },
            None => Seq::empty(),
        };
        let all = walked_entries(entries, depth, max_depth);
        assert(all == before + behind);
        assert(all.contains(path) <==> before.contains(path) || behind.contains(path)) by {
            if before.contains(path) {
                let i = before.index_of(path);
                assert(all[i] == path);
            }
            if behind.contains(path) {
                let i = behind.index_of(path);
                assert(all[before.len() + i] == path);
            }
            if all.contains(path) {
                let i = all.index_of(path);
                if i < before.len() {
                    assert(before[i] == path);
                } else {
                    assert(behind[i - before.len()] == path);
                }
            }
        }
        if let Some(child) = last.1 {
            lemma_inside(last.0, walked(child, depth + 1, max_depth), path);
            if behind.contains(path) {
                assert(entries[entries.len() - 1] == (path[0], Some(child)));
                assert(entered(entries, depth, max_depth, path, child));
            }
        }
        if before.contains(path) {
            let child = choose|child: DirTree| #[trigger]
                entered(rest, depth, max_depth, path, child);
            let i = rest.index_of((path[0], Some(child)));
            assert(entries[i] == rest[i]);
            assert(entered(entries, depth, max_depth, path, child));
        }
        if path.len() > 0 && is_descended(path[0]) && exists|child: DirTree| #[trigger]
            entered(entries, depth, max_depth, path, child) {
            let child = choose|child: DirTree| #[trigger]
                entered(entries, depth, max_depth, path, child);
            let i = entries.index_of((path[0], Some(child)));
            if i < rest.len() {
                assert(rest[i] == entries[i]);
                assert(entered(rest, depth, max_depth, path, child));
            } else {
                assert(last == (path[0], Some(child)));
            }
        }
    }
}

/// The walk hands out what the scan finds, and nothing else.
pub proof fn law_walk_hands_out_what_is_found(
    tree: DirTree,
    depth: nat,
    max_depth: nat,
    path: Seq<Seq<char>>,
)
    ensures
        walked(tree, depth, max_depth).contains(path) <==> finds(tree, depth, max_depth, path),
    decreases path.len(),
{
    let all = walked(tree, depth, max_depth);
    match look_of(depth, max_depth, tree.holds_git) {
        Look::Found => {
            assert(all[0] == Seq::<Seq<char>>::empty());
            if path.len() == 0 {
                assert(path =~= all[0]);
            }
        },
        Look::Leave => {},
        Look::Enter => {
            lemma_walked_entries(tree.entries, depth, max_depth, path);
            if path.len() > 0 {
                let rest = path.drop_first();
                assert forall|child: DirTree|
                    walked(child, depth + 1, max_depth).contains(rest) <==> #[trigger] finds(
                        child,
                        depth + 1,
                        max_depth,
                        rest,
                    ) by {
                    law_walk_hands_out_what_is_found(child, depth + 1, max_depth, rest);
                }
                if all.contains(path) {
                    let child = choose|child: DirTree| #[trigger]
                        entered(tree.entries, depth, max_depth, path, child);
                    assert(has_child(tree, path[0], child));
                    assert(finds(child, depth + 1, max_depth, rest));
                }
                if finds(tree, depth, max_depth, path) {
                    let child = choose|child: DirTree|
                        #[trigger] has_child(tree, path[0], child) && finds(
                            child,
                            depth + 1,
                            max_depth,
                            rest,
                        );
                    assert(entered(tree.entries, depth, max_depth, path, child));
                }
            }
        },
    }
}

proof fn lemma_entries_walked_once(tree: DirTree, n: int, depth: nat, max_depth: nat)
    requires
        tidy(tree),
        0 <= n <= tree.entries.len(),
        depth < max_depth,
    ensures
        walked_entries(tree.entries.take(n), depth, max_depth).no_duplicates(),
    decreases max_depth - depth, n,
{
    let entries = tree.entries.take(n);
    let all = walked_entries(entries, depth, max_depth);
    if n > 0 {
        let rest = tree.entries.take(n - 1);
        let last = tree.entries[n - 1];
        assert(entries.drop_last() =~= rest);
        assert(entries.last() == last);
        lemma_entries_walked_once(tree, n - 1, depth, max_depth);
        let before = walked_entries(rest, depth, max_depth);
        if let Some(child) = last.1 {
            if is_descended(last.0) {
                lemma_walked_once(child, depth + 1, max_depth);
                let paths = walked(child, depth + 1, max_depth);
                let behind = inside(last.0, paths);
                assert(all == before + behind);
                assert forall|i: int, j: int|
                    0 <= i < all.len() && 0 <= j < all.len() && i != j implies all[i] != all[j] by {
                    if i < before.len() && j < before.len() {
                        assert(all[i] == before[i] && all[j] == before[j]);
                    } else if i >= before.len() && j >= before.len() {
                        let a = paths[i - before.len()];
                        let b = paths[j - before.len()];
                        assert(all[i] == seq![last.0] + a && all[j] == seq![last.0] + b);
                        assert((seq![last.0] + a).drop_first() =~= a);
                        assert((seq![last.0] + b).drop_first() =~= b);
                    } else if i < before.len() {
                        lemma_walked_before(tree, n - 1, depth, max_depth, all[i]);
                        assert(before[i] == all[i]);
                        assert(all[j] == seq![last.0] + paths[j - before.len()]);
                        assert(all[j][0] == last.0);
                    } else {
                        lemma_walked_before(tree, n - 1, depth, max_depth, all[j]);
                        assert(before[j] == all[j]);
                        assert(all[i] == seq![last.0] + paths[i - before.len()]);
                        assert(all[i][0] == last.0);
                    }
                }
            } else {
                assert(all =~= before);
            }
        } else {
            assert(all =~= before);
        }
    }
}

/// What is handed out of the first entries does not lie in the entry behind them.
proof fn lemma_walked_before(
    tree: DirTree,
    n: int,
    depth: nat,
    max_depth: nat,
    path: Seq<Seq<char>>,
)
    requires
        tidy(tree),
        0 <= n < tree.entries.len(),
        depth < max_depth,
    ensures
        walked_entries(tree.entries.take(n), depth, max_depth).contains(path) ==> path.len() > 0
            && path[0] != tree.entries[n].0,
{
    let rest = tree.entries.take(n);
    lemma_walked_entries(rest, depth, max_depth, path);
    if walked_entries(rest, depth, max_depth).contains(path) {
        let child = choose|child: DirTree| #[trigger]
            entered(rest, depth, max_depth, path, child);
        let i = rest.index_of((path[0], Some(child)));
        assert(tree.entries[i] == rest[i]);
    }
}

proof fn lemma_walked_once(tree: DirTree, depth: nat, max_depth: nat)
    requires
        tidy(tree),
    ensures
        walked(tree, depth, max_depth).no_duplicates(),
    decreases max_depth - depth, tree.entries.len() + 1,
{
    if look_of(depth, max_depth, tree.holds_git) is Enter {
        let n = tree.entries.len() as int;
        lemma_entries_walked_once(tree, n, depth, max_depth);
        assert(tree.entries.take(n) =~= tree.entries);
    }
}

proof fn lemma_found_names(tree: DirTree, depth: nat, max_depth: nat, path: Seq<Seq<char>>)
    requires
        tidy(tree),
        finds(tree, depth, max_depth, path),
    ensures
        forall|i: int| 0 <= i < path.len() ==> is_entry_name(#[trigger] path[i]),
    decreases path.len(),
{
    if path.len() > 0 {
        let rest = path.drop_first();
        let child = choose|child: DirTree|
            #[trigger] has_child(tree, path[0], child) && finds(child, depth + 1, max_depth, rest);
        let at = tree.entries.index_of((path[0], Some(child)));
        assert(tree.entries[at] == (path[0], Some(child)));
        lemma_found_names(child, depth + 1, max_depth, rest);
        assert forall|i: int| 0 <= i < path.len() implies is_entry_name(#[trigger] path[i]) by {
            if i > 0 {
                assert(path[i] == rest[i - 1]);
            }
        }
    }
}

/// Of two repos that are found, none lies inside the other.
proof fn lemma_found_apart(
    tree: DirTree,
    depth: nat,
    max_depth: nat,
    a: Seq<Seq<char>>,
    b: Seq<Seq<char>>,
)
    requires
        tidy(tree),
        finds(tree, depth, max_depth, a),
        finds(tree, depth, max_depth, b),
        a.is_prefix_of(b),
    ensures
        a == b,
    decreases a.len(),
{
    if look_of(depth, max_depth, tree.holds_git) is Found {
        assert(a =~= b);
    } else {
        assert(a[0] == b[0]);
        let rest_a = a.drop_first();
        let rest_b = b.drop_first();
        let child_a = choose|child: DirTree|
            #[trigger] has_child(tree, a[0], child) && finds(child, depth + 1, max_depth, rest_a);
        let child_b = choose|child: DirTree|
            #[trigger] has_child(tree, b[0], child) && finds(child, depth + 1, max_depth, rest_b);
        let i = tree.entries.index_of((a[0], Some(child_a)));
        let j = tree.entries.index_of((b[0], Some(child_b)));
        assert(tree.entries[i] == (a[0], Some(child_a)));
        assert(tree.entries[j] == (b[0], Some(child_b)));
        assert(i == j) by {
            if i < j {
                assert(tree.entries[i].0 != tree.entries[j].0);
            } else if j < i {
                assert(tree.entries[j].0 != tree.entries[i].0);
            }
        }
        assert(rest_a.is_prefix_of(rest_b)) by {
            assert(rest_a =~= rest_b.take(rest_a.len() as int)) by {
                assert forall|k: int| 0 <= k < rest_a.len() implies rest_a[k] == rest_b[k] by {
                    assert(a[k + 1] == b[k + 1]);
                }
            }
        }
        lemma_found_apart(child_a, depth + 1, max_depth, rest_a, rest_b);
        assert(a =~= seq![a[0]] + rest_a);
        assert(b =~= seq![b[0]] + rest_b);
    }
}

// ---------------------------------------------------------------------------
// The list

/// The path of what stands at `names` below `root`.
pub open spec fn full_path(root: Seq<char>, names: Seq<Seq<char>>) -> Seq<char>
    decreases names.len(),
{
    if names.len() == 0 {
        root
    } else {
        joined(full_path(root, names.drop_last()), names.last())
    }
}

proof fn lemma_full_path(root: Seq<char>, names: Seq<Seq<char>>)
    requires
        forall|i: int| 0 <= i < names.len() ==> is_entry_name(#[trigger] names[i]),
    ensures
        parts_of(full_path(root, names)) == parts_of(root) + names,
    decreases names.len(),
{
    if names.len() == 0 {
        assert(parts_of(root) + names =~= parts_of(root));
    } else {
        let front = names.drop_last();
        assert forall|i: int| 0 <= i < front.len() implies is_entry_name(#[trigger] front[i]) by {
            assert(front[i] == names[i]);
        }
        lemma_full_path(root, front);
        assert(is_entry_name(names[names.len() - 1]));
        law_relative_path_of_entry(full_path(root, front), names.last());
        assert((parts_of(root) + front).push(names.last()) =~= parts_of(root) + names);
    }
}

/// The paths of the repos that the walk from `root` hands out.
pub open spec fn scan_paths(tree: DirTree, root: Seq<char>, max_depth: nat) -> Seq<Seq<char>> {
    walked(tree, 0, max_depth).map_values(|names: Seq<Seq<char>>| full_path(root, names))
}

/// `list` is what a scan of `tree` comes to: the paths that the walk hands out, come in any order
/// (`found`), sorted.
pub open spec fn is_scan_list(
    list: Seq<Seq<char>>,
    tree: DirTree,
    root: Seq<char>,
    max_depth: nat,
) -> bool {
    exists|found: Seq<Seq<char>>, order: Seq<usize>|
        found.to_multiset() == scan_paths(tree, root, max_depth).to_multiset() && #[trigger]
        is_sorted_order(found.len(), order, path_order(found)) && list == arranged(found, order)
}

/// The text of a path that is found, and the names that it is made of.
pub open spec fn is_found_at(
    tree: DirTree,
    root: Seq<char>,
    max_depth: nat,
    path: Seq<char>,
    names: Seq<Seq<char>>,
) -> bool {
    finds(tree, 0, max_depth, names) && path == full_path(root, names)
}

proof fn lemma_scan_paths(tree: DirTree, root: Seq<char>, max_depth: nat)
    requires
        tidy(tree),
    ensures
        scan_paths(tree, root, max_depth).no_duplicates(),
        forall|path: Seq<char>| #[trigger]
            scan_paths(tree, root, max_depth).contains(path) <==> exists|names: Seq<Seq<char>>|
                #[trigger] is_found_at(tree, root, max_depth, path, names),
{
    let all = walked(tree, 0, max_depth);
    let paths = scan_paths(tree, root, max_depth);
    lemma_walked_once(tree, 0, max_depth);
    assert forall|i: int| 0 <= i < all.len() implies finds(tree, 0, max_depth, #[trigger] all[i])
        && parts_of(paths[i]) == parts_of(root) + all[i] by {
        law_walk_hands_out_what_is_found(tree, 0, max_depth, all[i]);
        assert(all.contains(all[i]));
        lemma_found_names(tree, 0, max_depth, all[i]);
        lemma_full_path(root, all[i]);
    }
    assert forall|i: int, j: int|
        0 <= i < paths.len() && 0 <= j < paths.len() && i != j implies paths[i] != paths[j] by {
        let root_len = parts_of(root).len() as int;
        assert(all[i] != all[j]);
        assert((parts_of(root) + all[i]).skip(root_len) =~= all[i]);
        assert((parts_of(root) + all[j]).skip(root_len) =~= all[j]);
    }
    assert forall|path: Seq<char>| #[trigger] paths.contains(path) <==> exists|
        names: Seq<Seq<char>>,
    | #[trigger] is_found_at(tree, root, max_depth, path, names) by {
        if paths.contains(path) {
            let i = paths.index_of(path);
            assert(is_found_at(tree, root, max_depth, path, all[i]));
        }
        if exists|names: Seq<Seq<char>>| #[trigger]
            is_found_at(tree, root, max_depth, path, names) {
            let names = choose|names: Seq<Seq<char>>| #[trigger]
                is_found_at(tree, root, max_depth, path, names);
            law_walk_hands_out_what_is_found(tree, 0, max_depth, names);
            let i = all.index_of(names);
            assert(paths[i] == path);
        }
    }
}

/// The list of a scan holds exactly the repos that the scan finds.
pub proof fn law_scan_list_is_complete(
    list: Seq<Seq<char>>,
    tree: DirTree,
    root: Seq<char>,
    max_depth: nat,
)
    requires
        tidy(tree),
        is_scan_list(list, tree, root, max_depth),
    ensures
        list.no_duplicates(),
        forall|path: Seq<char>| #[trigger]
            list.contains(path) <==> exists|names: Seq<Seq<char>>| #[trigger]
                is_found_at(tree, root, max_depth, path, names),
{
    lemma_scan_paths(tree, root, max_depth);
    let paths = scan_paths(tree, root, max_depth);
    let (found, order) = choose|found: Seq<Seq<char>>, order: Seq<usize>|
        found.to_multiset() == paths.to_multiset() && #[trigger]
        is_sorted_order(found.len(), order, path_order(found)) && list == arranged(found, order);
    paths.to_multiset_ensures();
    found.to_multiset_ensures();
    paths.lemma_multiset_has_no_duplicates();
    found.lemma_multiset_has_no_duplicates_conv();
    assert forall|path: Seq<char>| #[trigger] list.contains(path) <==> paths.contains(path) by {
        assert(found.contains(path) <==> found.to_multiset().count(path) > 0);
        assert(paths.contains(path) <==> paths.to_multiset().count(path) > 0);
        if list.contains(path) {
            let k = list.index_of(path);
            assert(found[order[k] as int] == path);
        }
        if found.contains(path) {
            let i = found.index_of(path);
            let k = lemma_order_covers(found.len(), order, i);
            assert(list[k] == path);
        }
    }
    assert forall|i: int, j: int|
        0 <= i < list.len() && 0 <= j < list.len() && i != j implies list[i] != list[j] by {
        assert(order[i] != order[j]);
        assert(list[i] == found[order[i] as int] && list[j] == found[order[j] as int]);
    }
}

/// The list of a scan is in the order of the paths, and no path stands twice in it.
pub proof fn law_scan_list_ascends(
    list: Seq<Seq<char>>,
    tree: DirTree,
    root: Seq<char>,
    max_depth: nat,
)
    requires
        tidy(tree),
        is_scan_list(list, tree, root, max_depth),
    ensures
        forall|i: int, j: int|
            0 <= i < j < list.len() ==> parts_before(
                parts_of(#[trigger] list[i]),
                parts_of(#[trigger] list[j]),
            ),
{
    law_scan_list_is_complete(list, tree, root, max_depth);
    let (found, order) = choose|found: Seq<Seq<char>>, order: Seq<usize>|
        found.to_multiset() == scan_paths(tree, root, max_depth).to_multiset() && #[trigger]
        is_sorted_order(found.len(), order, path_order(found)) && list == arranged(found, order);
    assert forall|i: int, j: int| 0 <= i < j < list.len() implies parts_before(
        parts_of(#[trigger] list[i]),
        parts_of(#[trigger] list[j]),
    ) by {
        assert(ranked(path_order(found), order[i] as int, order[j] as int));
        assert(list[i] == found[order[i] as int] && list[j] == found[order[j] as int]);
        if !parts_before(parts_of(list[i]), parts_of(list[j])) {
            lemma_parts_order_total(parts_of(list[i]), parts_of(list[j]));
            let a = lemma_listed_names(list, tree, root, max_depth, i);
            let b = lemma_listed_names(list, tree, root, max_depth, j);
            let root_len = parts_of(root).len() as int;
            assert((parts_of(root) + a).skip(root_len) =~= a);
            assert((parts_of(root) + b).skip(root_len) =~= b);
            assert(list[i] != list[j]);
        }
    }
}

/// The names that a path of the list is made of.
proof fn lemma_listed_names(
    list: Seq<Seq<char>>,
    tree: DirTree,
    root: Seq<char>,
    max_depth: nat,
    i: int,
) -> (names: Seq<Seq<char>>)
    requires
        tidy(tree),
        is_scan_list(list, tree, root, max_depth),
        0 <= i < list.len(),
    ensures
        finds(tree, 0, max_depth, names),
        list[i] == full_path(root, names),
        parts_of(list[i]) == parts_of(root) + names,
{
    law_scan_list_is_complete(list, tree, root, max_depth);
    assert(list.contains(list[i]));
    let names = choose|names: Seq<Seq<char>>| #[trigger]
        is_found_at(tree, root, max_depth, list[i], names);
    lemma_found_names(tree, 0, max_depth, names);
    lemma_full_path(root, names);
    names
}

/// Each path in the list of a scan lies below the root, at most as deep as the scan goes; so the
/// root itself is never listed, and a scan of no depth lists nothing.
pub proof fn law_scan_list_stays_in_depth(
    list: Seq<Seq<char>>,
    tree: DirTree,
    root: Seq<char>,
    max_depth: nat,
)
    requires
        tidy(tree),
        is_scan_list(list, tree, root, max_depth),
    ensures
        forall|i: int|
            0 <= i < list.len() ==> parts_of(root).is_prefix_of(parts_of(#[trigger] list[i]))
                && parts_of(root).len() < parts_of(list[i]).len() <= parts_of(root).len()
                + max_depth,
        !list.contains(root),
        max_depth == 0 ==> list.len() == 0,
{
    assert forall|i: int| 0 <= i < list.len() implies parts_of(root).is_prefix_of(
        parts_of(#[trigger] list[i]),
    ) && parts_of(root).len() < parts_of(list[i]).len() <= parts_of(root).len() + max_depth by {
        let names = lemma_listed_names(list, tree, root, max_depth, i);
        law_scan_finds_outermost_repos(tree, max_depth, names);
        assert((parts_of(root) + names).take(parts_of(root).len() as int) =~= parts_of(root));
    }
    if list.contains(root) {
        let i = list.index_of(root);
        assert(parts_of(list[i]).len() > parts_of(root).len());
    }
    if max_depth == 0 && list.len() > 0 {
        assert(parts_of(list[0]).len() > parts_of(root).len());
    }
}

/// No path in the list of a scan lies inside another.
pub proof fn law_scan_list_is_not_nested(
    list: Seq<Seq<char>>,
    tree: DirTree,
    root: Seq<char>,
    max_depth: nat,
)
    requires
        tidy(tree),
        is_scan_list(list, tree, root, max_depth),
    ensures
        forall|i: int, j: int|
            0 <= i < list.len() && 0 <= j < list.len() && i != j ==> !parts_of(
                #[trigger] list[i],
            ).is_prefix_of(parts_of(#[trigger] list[j])),
{
    law_scan_list_is_complete(list, tree, root, max_depth);
    assert forall|i: int, j: int|
        0 <= i < list.len() && 0 <= j < list.len() && i != j implies !parts_of(
        #[trigger] list[i],
    ).is_prefix_of(parts_of(#[trigger] list[j])) by {
        let a = lemma_listed_names(list, tree, root, max_depth, i);
        let b = lemma_listed_names(list, tree, root, max_depth, j);
        let n = parts_of(root).len() as int;
        if parts_of(list[i]).is_prefix_of(parts_of(list[j])) {
            assert(a.is_prefix_of(b)) by {
                assert(a =~= b.take(a.len() as int)) by {
                    assert forall|k: int| 0 <= k < a.len() implies a[k] == b[k] by {
                        assert((parts_of(root) + a)[n + k] == (parts_of(root) + b)[n + k]);
                    }
                }
            }
            lemma_found_apart(tree, 0, max_depth, a, b);
            assert(list[i] != list[j]);
        }
    }
}

/// A deeper scan lists what a shallower one lists.
pub proof fn law_deeper_scan_lists_more(
    few: Seq<Seq<char>>,
    many: Seq<Seq<char>>,
    tree: DirTree,
    root: Seq<char>,
    less: nat,
    more: nat,
)
    requires
        tidy(tree),
        less <= more,
        is_scan_list(few, tree, root, less),
        is_scan_list(many, tree, root, more),
    ensures
        forall|i: int| 0 <= i < few.len() ==> many.contains(#[trigger] few[i]),
{
    law_scan_list_is_complete(many, tree, root, more);
    assert forall|i: int| 0 <= i < few.len() implies many.contains(#[trigger] few[i]) by {
        let names = lemma_listed_names(few, tree, root, less, i);
        law_deeper_scan_finds_more(tree, less, more, names);
        assert(is_found_at(tree, root, more, few[i], names));
    }
}

/// The list of a scan as a whole: it ascends without a path standing twice, the root is not in it,
/// no path of it lies inside another, each lies at most `less` below the root, none where that is
/// zero, and a deeper scan lists every path of it.
pub proof fn law_scan_list(
    few: Seq<Seq<char>>,
    many: Seq<Seq<char>>,
    tree: DirTree,
    root: Seq<char>,
    less: nat,
    more: nat,
)
    requires
        tidy(tree),
        less <= more,
        is_scan_list(few, tree, root, less),
        is_scan_list(many, tree, root, more),
    ensures
        few.no_duplicates(),
        forall|i: int, j: int|
            0 <= i < j < few.len() ==> parts_before(
                parts_of(#[trigger] few[i]),
                parts_of(#[trigger] few[j]),
            ),
        !few.contains(root),
        forall|i: int, j: int|
            0 <= i < few.len() && 0 <= j < few.len() && i != j ==> !parts_of(
                #[trigger] few[i],
            ).is_prefix_of(parts_of(#[trigger] few[j])),
        forall|i: int|
            0 <= i < few.len() ==> parts_of(root).is_prefix_of(parts_of(#[trigger] few[i]))
                && parts_of(root).len() + 1 <= parts_of(few[i]).len() <= parts_of(root).len() + less,
        less == 0 ==> few.len() == 0,
        forall|i: int| 0 <= i < few.len() ==> many.contains(#[trigger] few[i]),
{
    law_scan_list_is_complete(few, tree, root, less);
    law_scan_list_ascends(few, tree, root, less);
    law_scan_list_stays_in_depth(few, tree, root, less);
    law_scan_list_is_not_nested(few, tree, root, less);
    law_deeper_scan_lists_more(few, many, tree, root, less, more);
}

/// Sorting makes the list of a scan, in whatever order the walk hands the paths out.
pub proof fn law_sorted_walk_is_scan_list(
    found: Seq<Seq<char>>,
    order: Seq<usize>,
    tree: DirTree,
    root: Seq<char>,
    max_depth: nat,
)
    requires
        found.to_multiset() == scan_paths(tree, root, max_depth).to_multiset(),
        is_sorted_order(found.len(), order, path_order(found)),
    ensures
        is_scan_list(arranged(found, order), tree, root, max_depth),
{
}

} // verus!

//! POSIX paths as text: the parts that a path is made of, and what follows from them.

use vstd::prelude::*;
use vstd::string::*;

use crate::order::{
    arranged, is_sorted_order, lemma_sorted_order_agrees, lemma_text_order, lemma_text_order_strict,
    lemma_text_order_total, place_order, sort_order, text_before, text_less, Ordered,
};
use crate::text::{chars_of, same, string_of};

verus! {

/// `s` begins with a `.` that is a whole part of it.
pub open spec fn dot_first(s: Seq<char>) -> bool {
    s.len() > 0 && s[0] == '.' && (s.len() == 1 || s[1] == '/')
}

/// `s` without the slashes and the single dots that it begins with.
pub open spec fn skip_filler(s: Seq<char>) -> Seq<char>
    decreases s.len(),
{
    if s.len() > 0 && (s[0] == '/' || dot_first(s)) {
        skip_filler(s.skip(1))
    } else {
        s
    }
}

/// The number of characters of `s` before its first slash.
pub open spec fn part_len(s: Seq<char>) -> nat
    decreases s.len(),
{
    if s.len() == 0 || s[0] == '/' {
        0
    } else {
        1 + part_len(s.skip(1))
    }
}

proof fn lemma_part_len(s: Seq<char>)
    ensures
        part_len(s) <= s.len(),
        s.len() > 0 && s[0] != '/' ==> part_len(s) > 0,
    decreases s.len(),
{
    if s.len() > 0 {
        lemma_part_len(s.skip(1));
    }
}

proof fn lemma_skip_filler(s: Seq<char>)
    ensures
        skip_filler(s).len() <= s.len(),
        skip_filler(s).len() > 0 ==> skip_filler(s)[0] != '/' && !dot_first(skip_filler(s)),
    decreases s.len(),
{
    if s.len() > 0 {
        lemma_skip_filler(s.skip(1));
    }
}

/// The names in `s`, the text of a path behind its root: what stands between slashes, but for
/// nothing and a single dot.
pub open spec fn names_of(s: Seq<char>) -> Seq<Seq<char>>
    decreases s.len(),
    via names_of_decreases
{
    let body = skip_filler(s);
    if body.len() == 0 {
        Seq::empty()
    } else {
        let len = part_len(body) as int;
        seq![body.take(len)] + names_of(body.skip(len))
    }
}

#[via_fn]
proof fn names_of_decreases(s: Seq<char>) {
    lemma_skip_filler(s);
    lemma_part_len(skip_filler(s));
}

/// The number of characters of a path that are its root (`/`) or the dot it begins with.
pub open spec fn head_len(s: Seq<char>) -> int {
    if s.len() > 0 && (s[0] == '/' || dot_first(s)) {
        1
    } else {
        0
    }
}

/// The parts of a path: its root or leading dot, where it has one, and the names behind that.
/// Two paths with the same parts are the same path.
pub open spec fn parts_of(s: Seq<char>) -> Seq<Seq<char>> {
    if head_len(s) == 1 {
        seq![s.take(1)] + names_of(s.skip(1))
    } else {
        names_of(s)
    }
}

/// `s` behind its first `n` names.
pub open spec fn behind_names(s: Seq<char>, n: nat) -> Seq<char>
    decreases n,
{
    if n == 0 {
        s
    } else {
        let body = skip_filler(s);
        behind_names(body.skip(part_len(body) as int), (n - 1) as nat)
    }
}

/// `s` without the slashes and the single dots that it ends with.
pub open spec fn drop_filler(s: Seq<char>) -> Seq<char>
    decreases s.len(),
{
    if s.len() == 0 {
        s
    } else if s.last() == '/' || s.last() == '.' && (s.len() == 1 || s[s.len() - 2] == '/') {
        drop_filler(s.drop_last())
    } else {
        s
    }
}

/// The text of a path behind its first `n` parts, without slashes and single dots around it.
pub open spec fn behind_parts(s: Seq<char>, n: nat) -> Seq<char> {
    let head = head_len(s);
    if n == 0 {
        s.take(head) + drop_filler(s.skip(head))
    } else {
        drop_filler(skip_filler(behind_names(s.skip(head), (n - head) as nat)))
    }
}

/// The text of `path` below `root`, where `path` begins with the parts of `root`.
pub open spec fn below(root: Seq<char>, path: Seq<char>) -> Option<Seq<char>> {
    if parts_of(root).is_prefix_of(parts_of(path)) {
        Some(behind_parts(path, parts_of(root).len()))
    } else {
        None
    }
}

fn filler_end(chars: &Vec<char>, from: usize) -> (to: usize)
    requires
        from <= chars@.len(),
    ensures
        from <= to <= chars@.len(),
        skip_filler(chars@.skip(from as int)) == chars@.skip(to as int),
{
    let mut to: usize = from;
    let total: usize = chars.len();
    while to < total && (chars[to] == '/' || chars[to] == '.' && (to + 1 == total || chars[to + 1]
        == '/'))
        invariant
            from <= to <= total,
            total == chars@.len(),
            skip_filler(chars@.skip(from as int)) == skip_filler(chars@.skip(to as int)),
        decreases total - to,
    {
        assert(chars@.skip(to as int).skip(1) =~= chars@.skip(to + 1));
        to = to + 1;
    }
    to
}

fn part_end(chars: &Vec<char>, from: usize) -> (to: usize)
    requires
        from <= chars@.len(),
    ensures
        from <= to <= chars@.len(),
        part_len(chars@.skip(from as int)) == to - from,
{
    let mut to: usize = from;
    while to < chars.len() && chars[to] != '/'
        invariant
            from <= to <= chars@.len(),
            part_len(chars@.skip(from as int)) == to - from + part_len(chars@.skip(to as int)),
        decreases chars@.len() - to,
    {
        assert(chars@.skip(to as int).skip(1) =~= chars@.skip(to + 1));
        to = to + 1;
    }
    to
}

fn drop_filler_end(chars: &Vec<char>, from: usize) -> (to: usize)
    requires
        from <= chars@.len(),
    ensures
        from <= to <= chars@.len(),
        drop_filler(chars@.skip(from as int)) == chars@.subrange(from as int, to as int),
{
    let mut to: usize = chars.len();
    assert(chars@.subrange(from as int, to as int) =~= chars@.skip(from as int));
    while to > from && (chars[to - 1] == '/' || chars[to - 1] == '.' && (to - 1 == from || chars[to
        - 2] == '/'))
        invariant
            from <= to <= chars@.len(),
            drop_filler(chars@.skip(from as int)) == drop_filler(
                chars@.subrange(from as int, to as int),
            ),
        decreases to,
    {
        assert(chars@.subrange(from as int, to as int).drop_last() =~= chars@.subrange(
            from as int,
            to - 1,
        ));
        to = to - 1;
    }
    to
}

fn head_end(chars: &Vec<char>) -> (to: usize)
    ensures
        to == head_len(chars@),
        to <= chars@.len(),
{
    if chars.len() > 0 && (chars[0] == '/' || chars[0] == '.' && (chars.len() == 1 || chars[1]
        == '/')) {
        1
    } else {
        0
    }
}

/// The parts of a path.
pub fn path_parts(path: &str) -> (parts: Vec<String>)
    ensures
        parts.deep_view() == parts_of(path@),
{
    let chars = chars_of(path);
    let head = head_end(&chars);
    let mut parts: Vec<String> = Vec::new();
    if head == 1 {
        parts.push(string_of(&chars, 0, 1));
    }
    let mut at: usize = head;
    assert(chars@.skip(0) =~= chars@);
    assert(parts.deep_view() + names_of(chars@.skip(at as int)) =~= parts_of(path@)) by {
        assert(chars@.subrange(0, 1) =~= chars@.take(1));
    }
    loop
        invariant
            chars@ == path@,
            at <= chars@.len(),
            parts.deep_view() + names_of(chars@.skip(at as int)) == parts_of(path@),
        decreases chars@.len() - at,
    {
        let from = filler_end(&chars, at);
        if from == chars.len() {
            assert(parts.deep_view() =~= parts_of(path@));
            return parts;
        }
        proof {
            lemma_skip_filler(chars@.skip(at as int));
            lemma_part_len(chars@.skip(from as int));
        }
        let to = part_end(&chars, from);
        let name = string_of(&chars, from, to);
        let ghost before = parts.deep_view();
        let ghost body = chars@.skip(from as int);
        parts.push(name);
        proof {
            assert(parts.deep_view() =~= before.push(name@));
            assert(body.take(to - from) =~= name@);
            assert(body.skip(to - from) =~= chars@.skip(to as int));
            assert(parts.deep_view() + names_of(chars@.skip(to as int)) =~= before + (seq![
                name@,
            ] + names_of(chars@.skip(to as int))));
        }
        at = to;
    }
}

/// Whether the two paths are the same path: made of the same parts.
pub fn same_path(a: &str, b: &str) -> (equal: bool)
    ensures
        equal == (parts_of(a@) == parts_of(b@)),
{
    let x = path_parts(a);
    let y = path_parts(b);
    if x.len() != y.len() {
        assert(x.deep_view().len() != y.deep_view().len());
        return false;
    }
    let found = parts_begin(&x, &y);
    assert(found ==> x.deep_view() =~= y.deep_view());
    found
}

/// Whether the path of parts `x` begins with the parts `y`.
fn parts_begin(x: &Vec<String>, y: &Vec<String>) -> (found: bool)
    ensures
        found == y.deep_view().is_prefix_of(x.deep_view()),
{
    if y.len() > x.len() {
        return false;
    }
    let mut i: usize = 0;
    while i < y.len()
        invariant
            i <= y@.len() <= x@.len(),
            forall|j: int| 0 <= j < i ==> #[trigger] x.deep_view()[j] == y.deep_view()[j],
        decreases y@.len() - i,
    {
        if !same(x[i].as_str(), y[i].as_str()) {
            assert(x.deep_view()[i as int] != y.deep_view()[i as int]);
            return false;
        }
        i = i + 1;
    }
    assert(y.deep_view() =~= x.deep_view().subrange(0, y@.len() as int));
    true
}

/// The text of a path behind its first `n` parts.
fn path_behind(path: &str, n: usize) -> (rest: String)
    requires
        n <= parts_of(path@).len(),
    ensures
        rest@ == behind_parts(path@, n as nat),
{
    let chars = chars_of(path);
    let head = head_end(&chars);
    if n == 0 {
        let to = drop_filler_end(&chars, head);
        assert(chars@.subrange(0, to as int) =~= chars@.take(head as int) + chars@.subrange(
            head as int,
            to as int,
        ));
        return string_of(&chars, 0, to);
    }
    let mut at: usize = head;
    let mut left: usize = n - head;
    while left > 0
        invariant
            at <= chars@.len(),
            behind_names(chars@.skip(head as int), (n - head) as nat) == behind_names(
                chars@.skip(at as int),
                left as nat,
            ),
        decreases left,
    {
        let from = filler_end(&chars, at);
        let to = part_end(&chars, from);
        assert(chars@.skip(from as int).skip(to - from) =~= chars@.skip(to as int));
        at = to;
        left = left - 1;
    }
    let from = filler_end(&chars, at);
    let to = drop_filler_end(&chars, from);
    string_of(&chars, from, to)
}

/// `path` rendered relative to `root` (e.g. "personal/pull-all"). Falls back to the full path
/// when `path` isn't under `root`.
pub fn relative_path(root: &str, path: &str) -> (rest: String)
    ensures
        rest@ == (match below(root@, path@) {
            Some(found) => found,
            None => path@,
        }),
{
    let base = path_parts(root);
    let parts = path_parts(path);
    if parts_begin(&parts, &base) {
        path_behind(path, base.len())
    } else {
        path.to_string()
    }
}

/// `path` as seen from `dir`: an absolute path as it is, any other behind `dir` and a slash.
pub open spec fn joined(dir: Seq<char>, path: Seq<char>) -> Seq<char> {
    if path.len() > 0 && path[0] == '/' {
        path
    } else if dir.len() == 0 || dir.last() == '/' {
        dir + path
    } else {
        dir.push('/') + path
    }
}

/// `path` as seen from `dir`.
pub fn join_path(dir: &str, path: &str) -> (full: String)
    ensures
        full@ == joined(dir@, path@),
{
    let base = chars_of(dir);
    let name = chars_of(path);
    if name.len() > 0 && name[0] == '/' {
        path.to_string()
    } else if base.len() == 0 || base[base.len() - 1] == '/' {
        dir.to_string().concat(path)
    } else {
        let mut full = dir.to_string();
        full.push('/');
        full.concat(path)
    }
}

// ---------------------------------------------------------------------------
// The order of paths

/// The kind of a part: the root, a leading dot, a step up, a name.
pub open spec fn part_rank(part: Seq<char>) -> int {
    if part == seq!['/'] {
        0
    } else if part == seq!['.'] {
        1
    } else if part == seq!['.', '.'] {
        2
    } else {
        3
    }
}

/// The part `a` stands before the part `b`: by kind, then by text.
pub open spec fn part_before(a: Seq<char>, b: Seq<char>) -> bool {
    if part_rank(a) != part_rank(b) {
        part_rank(a) < part_rank(b)
    } else {
        text_before(a, b)
    }
}

/// A path of parts `a` stands before one of parts `b`.
pub open spec fn parts_before(a: Seq<Seq<char>>, b: Seq<Seq<char>>) -> bool
    decreases a.len(),
{
    if b.len() == 0 {
        false
    } else if a.len() == 0 {
        true
    } else if part_before(a[0], b[0]) {
        true
    } else if part_before(b[0], a[0]) {
        false
    } else {
        parts_before(a.drop_first(), b.drop_first())
    }
}

proof fn lemma_part_order(a: Seq<char>, b: Seq<char>, c: Seq<char>)
    requires
        !part_before(a, b),
        !part_before(b, c),
    ensures
        !part_before(a, c),
{
    if part_rank(a) == part_rank(b) && part_rank(b) == part_rank(c) {
        lemma_text_order(a, b, c);
    }
}

proof fn lemma_parts_order(a: Seq<Seq<char>>, b: Seq<Seq<char>>, c: Seq<Seq<char>>)
    requires
        !parts_before(a, b),
        !parts_before(b, c),
    ensures
        !parts_before(a, c),
    decreases a.len(),
{
    if a.len() > 0 && b.len() > 0 && c.len() > 0 {
        lemma_part_order(a[0], b[0], c[0]);
        if part_before(b[0], a[0]) {
            // b < a; were a no longer behind c, then c would be behind b.
            if !part_before(c[0], a[0]) {
                lemma_part_order(c[0], a[0], b[0]);
                lemma_part_order(b[0], c[0], a[0]);
            }
        } else if part_before(c[0], b[0]) {
            if !part_before(c[0], a[0]) {
                lemma_part_order(c[0], a[0], b[0]);
            }
        } else if !part_before(c[0], a[0]) {
            lemma_parts_order(a.drop_first(), b.drop_first(), c.drop_first());
        }
    }
}

/// Paths that stand neither before nor behind one another have the same parts.
pub proof fn lemma_parts_order_total(a: Seq<Seq<char>>, b: Seq<Seq<char>>)
    requires
        !parts_before(a, b),
        !parts_before(b, a),
    ensures
        a == b,
    decreases a.len(),
{
    if a.len() > 0 && b.len() > 0 {
        lemma_text_order_total(a[0], b[0]);
        lemma_parts_order_total(a.drop_first(), b.drop_first());
        assert(a =~= seq![a[0]] + a.drop_first());
        assert(b =~= seq![b[0]] + b.drop_first());
    } else {
        assert(a =~= b);
    }
}

proof fn lemma_parts_order_strict(a: Seq<Seq<char>>, b: Seq<Seq<char>>)
    ensures
        !(parts_before(a, b) && parts_before(b, a)),
    decreases a.len(),
{
    if a.len() > 0 && b.len() > 0 {
        lemma_text_order_strict(a[0], b[0]);
        if !part_before(a[0], b[0]) && !part_before(b[0], a[0]) {
            lemma_parts_order_strict(a.drop_first(), b.drop_first());
        }
    }
}

/// A path, split into its parts to be ordered by them.
pub struct PathKey {
    pub parts: Vec<String>,
}

fn rank_of(part: &str) -> (rank: u8)
    ensures
        rank == part_rank(part@),
{
    let chars = chars_of(part);
    if chars.len() == 1 && chars[0] == '/' {
        assert(part@ =~= seq!['/']);
        0
    } else if chars.len() == 1 && chars[0] == '.' {
        assert(part@ =~= seq!['.']);
        assert(part@[0] != seq!['/'][0]);
        1
    } else if chars.len() == 2 && chars[0] == '.' && chars[1] == '.' {
        assert(part@ =~= seq!['.', '.']);
        2
    } else {
        assert(part@ == seq!['/'] ==> part@.len() == 1 && part@[0] == '/');
        assert(part@ == seq!['.'] ==> part@.len() == 1 && part@[0] == '.');
        assert(part@ == seq!['.', '.'] ==> part@.len() == 2 && part@[0] == '.' && part@[1] == '.');
        3
    }
}

fn part_less(a: &str, b: &str) -> (less: bool)
    ensures
        less == part_before(a@, b@),
{
    let x = rank_of(a);
    let y = rank_of(b);
    if x != y {
        x < y
    } else {
        text_less(a, b)
    }
}

impl Ordered for PathKey {
    open spec fn before(&self, other: &Self) -> bool {
        parts_before(self.parts.deep_view(), other.parts.deep_view())
    }

    proof fn order_law(a: &Self, b: &Self, c: &Self) {
        lemma_parts_order(a.parts.deep_view(), b.parts.deep_view(), c.parts.deep_view());
    }

    proof fn strict_law(a: &Self, b: &Self) {
        lemma_parts_order_strict(a.parts.deep_view(), b.parts.deep_view());
    }

    fn is_before(&self, other: &Self) -> (less: bool) {
        let ghost a = self.parts.deep_view();
        let ghost b = other.parts.deep_view();
        let mut i: usize = 0;
        assert(a.skip(0) =~= a);
        assert(b.skip(0) =~= b);
        while i < self.parts.len() && i < other.parts.len()
            invariant
                a == self.parts.deep_view(),
                b == other.parts.deep_view(),
                i <= a.len(),
                i <= b.len(),
                parts_before(a, b) == parts_before(a.skip(i as int), b.skip(i as int)),
            decreases a.len() - i,
        {
            assert(a.skip(i as int)[0] == self.parts@[i as int]@);
            assert(b.skip(i as int)[0] == other.parts@[i as int]@);
            if part_less(self.parts[i].as_str(), other.parts[i].as_str()) {
                return true;
            }
            if part_less(other.parts[i].as_str(), self.parts[i].as_str()) {
                return false;
            }
            assert(a.skip(i as int).drop_first() =~= a.skip(i + 1));
            assert(b.skip(i as int).drop_first() =~= b.skip(i + 1));
            i = i + 1;
        }
        i < other.parts.len()
    }
}

/// The order of a list of paths, by their parts.
pub open spec fn path_order(paths: Seq<Seq<char>>) -> spec_fn(int, int) -> bool {
    |i: int, j: int| parts_before(parts_of(paths[i]), parts_of(paths[j]))
}

/// The paths in the order of their parts.
pub fn sort_paths(paths: &Vec<String>) -> (sorted: Vec<String>)
    ensures
        exists|order: Seq<usize>| #[trigger]
            is_sorted_order(paths@.len(), order, path_order(paths.deep_view()))
                && sorted.deep_view() == arranged(paths.deep_view(), order),
{
    let ghost all = paths.deep_view();
    let mut keys: Vec<PathKey> = Vec::new();
    let mut i: usize = 0;
    while i < paths.len()
        invariant
            i <= paths@.len(),
            keys@.len() == i,
            all == paths.deep_view(),
            forall|j: int|
                0 <= j < i ==> (#[trigger] keys@[j]).parts.deep_view() == parts_of(all[j]),
        decreases paths@.len() - i,
    {
        assert(all[i as int] == paths@[i as int]@);
        keys.push(PathKey { parts: path_parts(paths[i].as_str()) });
        i = i + 1;
    }
    let order = sort_order(&keys);
    let mut sorted: Vec<String> = Vec::new();
    let mut k: usize = 0;
    while k < order.len()
        invariant
            k <= order@.len(),
            sorted@.len() == k,
            all == paths.deep_view(),
            forall|j: int| 0 <= j < order@.len() ==> 0 <= #[trigger] order@[j] < paths@.len(),
            forall|j: int|
                0 <= j < k ==> #[trigger] sorted@[j]@ == all[order@[j] as int],
        decreases order@.len() - k,
    {
        let path = paths[order[k]].clone();
        assert(path@ == all[order@[k as int] as int]);
        sorted.push(path);
        k = k + 1;
    }
    proof {
        lemma_sorted_order_agrees(
            paths@.len(),
            order@,
            place_order(keys@),
            path_order(all),
        );
        assert(sorted.deep_view() =~= arranged(all, order@));
    }
    sorted
}

// ---------------------------------------------------------------------------
// Laws

/// The text ends with a slash or a single dot, which counts for nothing.
spec fn ends_with_filler(s: Seq<char>) -> bool {
    s.len() > 0 && (s.last() == '/' || s.last() == '.' && (s.len() == 1 || s[s.len() - 2] == '/'))
}

proof fn lemma_names_behind_filler(s: Seq<char>)
    requires
        s.len() > 0,
        s[0] == '/' || dot_first(s),
    ensures
        names_of(s) == names_of(s.skip(1)),
{
    lemma_skip_filler(s);
}

proof fn lemma_names_of_part(s: Seq<char>)
    requires
        s.len() > 0,
        s[0] != '/',
        !dot_first(s),
    ensures
        0 < part_len(s) <= s.len(),
        names_of(s) == seq![s.take(part_len(s) as int)] + names_of(s.skip(part_len(s) as int)),
        part_len(s) < s.len() ==> s[part_len(s) as int] == '/',
        forall|i: int| 0 <= i < part_len(s) ==> #[trigger] s[i] != '/',
{
    lemma_part_len(s);
    lemma_part_len_stops(s);
}

proof fn lemma_part_len_stops(s: Seq<char>)
    ensures
        part_len(s) <= s.len(),
        part_len(s) < s.len() ==> s[part_len(s) as int] == '/',
        forall|i: int| 0 <= i < part_len(s) ==> #[trigger] s[i] != '/',
    decreases s.len(),
{
    if s.len() > 0 && s[0] != '/' {
        lemma_part_len_stops(s.skip(1));
        assert forall|i: int| 0 <= i < part_len(s) implies #[trigger] s[i] != '/' by {
            if i > 0 {
                assert(s.skip(1)[i - 1] == s[i]);
            }
        }
    }
}

/// A run without a slash, followed by a slash or by nothing, is a whole part.
proof fn lemma_part_len_is(s: Seq<char>, n: int)
    requires
        0 <= n <= s.len(),
        forall|i: int| 0 <= i < n ==> #[trigger] s[i] != '/',
        n == s.len() || s[n] == '/',
    ensures
        part_len(s) == n,
    decreases n,
{
    if n > 0 {
        assert(s[0] != '/');
        let rest = s.skip(1);
        assert forall|i: int| 0 <= i < n - 1 implies #[trigger] rest[i] != '/' by {
            assert(rest[i] == s[i + 1]);
        }
        lemma_part_len_is(rest, n - 1);
    }
}

proof fn lemma_filler_at_end(s: Seq<char>)
    requires
        ends_with_filler(s),
    ensures
        names_of(s) == names_of(s.drop_last()),
    decreases s.len(),
{
    let short = s.drop_last();
    if s[0] == '/' || dot_first(s) {
        lemma_names_behind_filler(s);
        if s.len() == 1 {
            assert(s.skip(1) =~= short);
        } else {
            lemma_names_behind_filler(short);
            lemma_filler_at_end(s.skip(1));
            assert(s.skip(1).drop_last() =~= short.skip(1));
        }
    } else {
        lemma_names_of_part(s);
        let n = part_len(s) as int;
        assert(n < s.len()) by {
            if n == s.len() {
                assert(s[s.len() - 1] != '/');
                assert(s.len() > 1 ==> s[s.len() - 2] != '/');
            }
        }
        assert forall|i: int| 0 <= i < n implies #[trigger] short[i] != '/' by {
            assert(short[i] == s[i]);
        }
        lemma_part_len_is(short, n);
        assert(!dot_first(short)) by {
            if dot_first(short) && short.len() == 1 {
                assert(s.last() == s[1]);
            }
        }
        lemma_names_of_part(short);
        assert(short.take(n) =~= s.take(n));
        assert(s.skip(n).drop_last() =~= short.skip(n));
        assert(ends_with_filler(s.skip(n)));
        lemma_filler_at_end(s.skip(n));
    }
}

proof fn lemma_drop_filler_keeps_names(s: Seq<char>)
    ensures
        names_of(drop_filler(s)) == names_of(s),
        drop_filler(s).is_prefix_of(s),
        !ends_with_filler(drop_filler(s)),
    decreases s.len(),
{
    if ends_with_filler(s) {
        lemma_filler_at_end(s);
        lemma_drop_filler_keeps_names(s.drop_last());
    }
}

proof fn lemma_skip_filler_keeps_names(s: Seq<char>)
    ensures
        names_of(skip_filler(s)) == names_of(s),
    decreases s.len(),
{
    if s.len() > 0 && (s[0] == '/' || dot_first(s)) {
        lemma_names_behind_filler(s);
        lemma_skip_filler_keeps_names(s.skip(1));
    }
}

proof fn lemma_behind_names(s: Seq<char>, n: nat)
    requires
        n <= names_of(s).len(),
    ensures
        names_of(behind_names(s, n)) == names_of(s).skip(n as int),
    decreases n,
{
    if n == 0 {
        assert(names_of(s).skip(0) =~= names_of(s));
    } else {
        let body = skip_filler(s);
        let rest = body.skip(part_len(body) as int);
        assert(names_of(s) =~= seq![body.take(part_len(body) as int)] + names_of(rest));
        lemma_behind_names(rest, (n - 1) as nat);
        assert(names_of(s).skip(n as int) =~= names_of(rest).skip(n - 1));
    }
}

/// Without slashes and single dots at its end, a path has the parts that it had.
proof fn lemma_relative_to_nothing(path: Seq<char>)
    ensures
        parts_of(behind_parts(path, 0)) == parts_of(path),
{
    let head = head_len(path);
    let body = path.skip(head);
    let kept = drop_filler(body);
    let rest = path.take(head) + kept;
    lemma_drop_filler_keeps_names(body);
    assert(rest.skip(head) =~= kept);
    if head == 1 {
        assert(rest[0] == path[0]);
        assert(dot_first(path) ==> dot_first(rest)) by {
            if rest.len() > 1 {
                assert(rest[1] == path[1]);
            }
        }
        assert(rest.take(1) =~= path.take(1));
    } else {
        assert(body =~= path);
        assert(rest =~= kept);
        assert(head_len(kept) == 0) by {
            if kept.len() > 0 {
                assert(kept[0] == path[0]);
                if dot_first(kept) {
                    if kept.len() == 1 {
                        assert(ends_with_filler(kept));
                    } else {
                        assert(kept[1] == path[1]);
                    }
                }
            }
        }
    }
}

/// The names of a path stand between its slashes: slashes and single dots count for nothing,
/// wherever they stand, and any other run of characters is a name, as it is.
pub proof fn law_names_stand_between_slashes(name: Seq<char>, rest: Seq<char>)
    requires
        is_entry_name(name),
    ensures
        names_of(Seq::empty()) == Seq::<Seq<char>>::empty(),
        names_of(seq!['/'] + rest) == names_of(rest),
        names_of(seq!['.']) == Seq::<Seq<char>>::empty(),
        names_of(seq!['.', '/'] + rest) == names_of(rest),
        names_of(name) == seq![name],
        names_of(name.push('/') + rest) == seq![name] + names_of(rest),
{
    let none = Seq::<char>::empty();
    assert(names_of(none) =~= Seq::<Seq<char>>::empty());
    let below_root = seq!['/'] + rest;
    lemma_names_behind_filler(below_root);
    assert(below_root.skip(1) =~= rest);
    lemma_names_behind_filler(seq!['.']);
    assert(seq!['.'].skip(1) =~= none);
    let below_dot = seq!['.', '/'] + rest;
    assert(below_dot[0] == '.' && below_dot[1] == '/');
    lemma_names_behind_filler(below_dot);
    assert(below_dot.skip(1) =~= below_root);
    let long = name.push('/') + rest;
    assert forall|i: int| 0 <= i < name.len() implies #[trigger] name[i] != '/' by {
        assert(name.contains(name[i]));
    }
    assert forall|i: int| 0 <= i < name.len() implies #[trigger] long[i] != '/' by {
        assert(long[i] == name[i]);
    }
    assert(long[name.len() as int] == '/');
    assert(!dot_first(name)) by {
        if dot_first(name) {
            if name.len() == 1 {
                assert(name =~= seq!['.']);
            }
        }
    }
    assert(!dot_first(long)) by {
        if dot_first(long) {
            assert(long[0] == name[0]);
            if name.len() > 1 {
                assert(long[1] == name[1]);
            } else {
                assert(name =~= seq!['.']);
            }
        }
    }
    lemma_part_len_is(name, name.len() as int);
    lemma_part_len_is(long, name.len() as int);
    lemma_names_of_part(name);
    lemma_names_of_part(long);
    assert(name.take(name.len() as int) =~= name);
    assert(name.skip(name.len() as int) =~= none);
    assert(seq![name] + Seq::<Seq<char>>::empty() =~= seq![name]);
    assert(long.take(name.len() as int) =~= name);
    assert(long.skip(name.len() as int) =~= below_root);
}

/// A path begins with its root or with a dot, which then count as a part, and else with a name.
pub proof fn law_path_begins_with_root_or_dot(path: Seq<char>, rest: Seq<char>)
    ensures
        parts_of(seq!['/'] + rest) == seq![seq!['/']] + names_of(rest),
        parts_of(seq!['.']) == seq![seq!['.']],
        parts_of(seq!['.', '/'] + rest) == seq![seq!['.']] + names_of(rest),
        (path.len() == 0 || path[0] != '/') && path != seq!['.'] && !(path.len() >= 2 && path[0]
            == '.' && path[1] == '/') ==> parts_of(path) == names_of(path),
{
    let below_root = seq!['/'] + rest;
    assert(below_root.take(1) =~= seq!['/']);
    assert(below_root.skip(1) =~= rest);
    let dot = seq!['.'];
    assert(dot.take(1) =~= dot);
    assert(dot.skip(1) =~= Seq::<char>::empty());
    assert(names_of(Seq::<char>::empty()) =~= Seq::<Seq<char>>::empty());
    assert(parts_of(dot) =~= seq![dot]);
    let below_dot = seq!['.', '/'] + rest;
    assert(below_dot[0] == '.' && below_dot[1] == '/');
    assert(below_dot.take(1) =~= dot);
    assert(below_dot.skip(1) =~= below_root);
    lemma_names_behind_filler(below_root);
    if path.len() == 1 && path[0] == '.' {
        assert(path =~= dot);
    }
}

proof fn lemma_filler_is_dropped(s: Seq<char>)
    ensures
        drop_filler(s).is_prefix_of(s),
        forall|i: int|
            drop_filler(s).len() <= i < s.len() ==> #[trigger] s[i] == '/' || s[i] == '.',
    decreases s.len(),
{
    if ends_with_filler(s) {
        let short = s.drop_last();
        lemma_filler_is_dropped(short);
        assert forall|i: int| drop_filler(s).len() <= i < s.len() implies #[trigger] s[i] == '/'
            || s[i] == '.' by {
            if i < short.len() {
                assert(short[i] == s[i]);
            }
        }
    }
}

proof fn lemma_filler_is_skipped(s: Seq<char>) -> (n: int)
    ensures
        0 <= n <= s.len(),
        skip_filler(s) == s.skip(n),
    decreases s.len(),
{
    if s.len() > 0 && (s[0] == '/' || dot_first(s)) {
        let n = lemma_filler_is_skipped(s.skip(1));
        assert(s.skip(1).skip(n) =~= s.skip(n + 1));
        n + 1
    } else {
        assert(s.skip(0) =~= s);
        0
    }
}

proof fn lemma_names_are_skipped(s: Seq<char>, n: nat) -> (at: int)
    ensures
        0 <= at <= s.len(),
        behind_names(s, n) == s.skip(at),
    decreases n,
{
    if n == 0 {
        assert(s.skip(0) =~= s);
        0
    } else {
        let skipped = lemma_filler_is_skipped(s);
        let body = skip_filler(s);
        lemma_part_len(body);
        let rest = body.skip(part_len(body) as int);
        let at = lemma_names_are_skipped(rest, (n - 1) as nat);
        assert(rest.skip(at) =~= s.skip(skipped + part_len(body) + at));
        skipped + part_len(body) + at
    }
}

/// What stands below a root is a piece of the text of the path, as it is: nothing is left out but
/// slashes and dots behind it, and it does not end with a slash or a single dot itself, unless it
/// is that alone.
pub proof fn law_relative_path_is_a_piece_of_the_path(root: Seq<char>, path: Seq<char>)
    ensures
        below(root, path) matches Some(rest) ==> exists|front: Seq<char>, behind: Seq<char>|
            path == #[trigger] (front + rest + behind) && forall|i: int|
                0 <= i < behind.len() ==> #[trigger] behind[i] == '/' || behind[i] == '.',
        below(root, path) matches Some(rest) ==> (rest.len() > 1 ==> rest.last() != '/' && !(
        rest.last() == '.' && rest[rest.len() - 2] == '/')),
{
    if let Some(rest) = below(root, path) {
        let n = parts_of(root).len();
        let head = head_len(path);
        let body = path.skip(head);
        if n == 0 {
            lemma_filler_is_dropped(body);
            lemma_drop_filler_keeps_names(body);
            let kept = drop_filler(body);
            let behind = body.skip(kept.len() as int);
            let none = Seq::<char>::empty();
            assert(body =~= kept + behind);
            assert(path =~= path.take(head) + body);
            assert(path =~= none + rest + behind);
            if kept.len() > 0 {
                assert(rest.last() == kept.last());
                assert(kept.len() > 1 ==> rest[rest.len() - 2] == kept[kept.len() - 2]);
            }
        } else {
            let at = lemma_names_are_skipped(body, (n - head) as nat);
            let tail = body.skip(at);
            let skipped = lemma_filler_is_skipped(tail);
            let text = tail.skip(skipped);
            lemma_filler_is_dropped(text);
            lemma_drop_filler_keeps_names(text);
            let behind = text.skip(rest.len() as int);
            let front = path.take(head + at + skipped);
            assert(text =~= rest + behind);
            assert(text =~= path.skip(head + at + skipped));
            assert(path =~= front + rest + behind);
        }
    }
}

/// A path that begins at the root stands for itself; any other is put behind the directory, with
/// one slash between them.
pub proof fn law_paths_are_joined_by_one_slash(dir: Seq<char>, path: Seq<char>)
    ensures
        joined(dir, seq!['/'] + path) == seq!['/'] + path,
        path.len() == 0 || path[0] != '/' ==> {
            &&& joined(Seq::empty(), path) == path
            &&& joined(dir.push('/'), path) == dir.push('/') + path
            &&& dir.len() > 0 && dir.last() != '/' ==> joined(dir, path) == dir.push('/') + path
        },
{
    assert(Seq::<char>::empty() + path =~= path);
    assert((seq!['/'] + path)[0] == '/');
}

/// Parts are ordered in turn: by the first in which two paths differ, and a path before those
/// below it. The root comes first, then the dot and the double dot, and names come by their text.
pub proof fn law_paths_are_ordered_by_part(
    common: Seq<Seq<char>>,
    a: Seq<Seq<char>>,
    b: Seq<Seq<char>>,
    name: Seq<char>,
    other: Seq<char>,
)
    requires
        is_entry_name(name),
        name != seq!['.', '.'],
        is_entry_name(other),
        other != seq!['.', '.'],
    ensures
        a.len() > 0 && b.len() > 0 && a[0] != b[0] ==> (parts_before(common + a, common + b)
            <==> part_before(a[0], b[0])),
        parts_before(common, common + a) <==> a.len() > 0,
        !parts_before(common + a, common),
        part_before(seq!['/'], seq!['.']),
        part_before(seq!['.'], seq!['.', '.']),
        part_before(seq!['.', '.'], name),
        part_before(name, other) <==> text_before(name, other),
    decreases common.len(),
{
    assert(seq!['/'] != seq!['.']) by {
        assert(seq!['/'][0] != seq!['.'][0]);
    }
    assert(seq!['.', '.'].len() == 2 && seq!['/'].len() == 1 && seq!['.'].len() == 1);
    assert(name != seq!['/'] && other != seq!['/']) by {
        assert(seq!['/'].contains(seq!['/'][0]));
    }
    if common.len() == 0 {
        assert(common + a =~= a);
        assert(common + b =~= b);
        if a.len() > 0 && b.len() > 0 && a[0] != b[0] {
            if part_before(a[0], b[0]) {
            } else if !part_before(b[0], a[0]) {
                lemma_text_order_total(a[0], b[0]);
            }
        }
    } else {
        let rest = common.drop_first();
        law_paths_are_ordered_by_part(rest, a, b, name, other);
        assert((common + a).drop_first() =~= rest + a);
        assert((common + b).drop_first() =~= rest + b);
        lemma_part_irreflexive(common[0]);
        if a.len() == 0 {
            assert(common + a =~= common);
        }
    }
}

proof fn lemma_part_irreflexive(part: Seq<char>)
    ensures
        !part_before(part, part),
{
    lemma_text_order_strict(part, part);
}

/// What stands below a root names the rest of the path: the parts of the root and those of the
/// text below it are the parts of the path.
pub proof fn law_relative_path_names_the_rest(root: Seq<char>, path: Seq<char>)
    ensures
        below(root, path) matches Some(rest) ==> parts_of(path) == parts_of(root) + parts_of(rest),
        below(root, path) is Some <==> parts_of(root).is_prefix_of(parts_of(path)),
{
    if parts_of(root).len() == 0 {
        lemma_relative_to_nothing(path);
        assert(parts_of(root) + parts_of(behind_parts(path, 0)) =~= parts_of(path));
    } else if parts_of(root).is_prefix_of(parts_of(path)) {
        let n = parts_of(root).len();
        let head = head_len(path);
        let body = path.skip(head);
        assert(path.skip(0) =~= path);
        let names = names_of(body);
        let left = behind_names(body, (n - head) as nat);
        lemma_behind_names(body, (n - head) as nat);
        let trimmed = skip_filler(left);
        lemma_skip_filler(left);
        lemma_skip_filler_keeps_names(left);
        lemma_drop_filler_keeps_names(trimmed);
        let rest = drop_filler(trimmed);
        assert(head_len(rest) == 0) by {
            if rest.len() > 0 {
                assert(rest[0] == trimmed[0]);
                if dot_first(rest) {
                    if rest.len() == 1 {
                        assert(ends_with_filler(rest));
                    } else {
                        assert(rest[1] == trimmed[1]);
                    }
                }
            }
        }
        assert(parts_of(path) =~= parts_of(root) + parts_of(rest)) by {
            assert(parts_of(path).skip(n as int) =~= names.skip(n - head));
            assert(parts_of(path).take(n as int) =~= parts_of(root));
        }
    }
}

/// A name of a directory entry: it is not empty, not a single dot, and holds no slash.
pub open spec fn is_entry_name(name: Seq<char>) -> bool {
    name.len() > 0 && !name.contains('/') && name != seq!['.']
}

proof fn lemma_entry_name(name: Seq<char>)
    requires
        is_entry_name(name),
    ensures
        name[0] != '/',
        !dot_first(name),
        !ends_with_filler(name),
        part_len(name) == name.len(),
        names_of(name) == seq![name],
{
    assert forall|i: int| 0 <= i < name.len() implies #[trigger] name[i] != '/' by {
        assert(name.contains(name[i]));
    }
    if dot_first(name) && name.len() == 1 {
        assert(name =~= seq!['.']);
    }
    if ends_with_filler(name) && name.len() == 1 {
        assert(name =~= seq!['.']);
    }
    lemma_part_len_is(name, name.len() as int);
    lemma_names_of_part(name);
    assert(name.take(name.len() as int) =~= name);
    assert(name.skip(name.len() as int) =~= Seq::<char>::empty());
    assert(names_of(Seq::<char>::empty()) =~= Seq::<Seq<char>>::empty());
    assert(names_of(name) =~= seq![name]);
}

/// A name behind a slash is one more name, and it is what stands behind the names before it.
proof fn lemma_name_behind(s: Seq<char>, name: Seq<char>)
    requires
        is_entry_name(name),
    ensures
        names_of(s.push('/') + name) == names_of(s).push(name),
        skip_filler(behind_names(s.push('/') + name, names_of(s).len())) == name,
    decreases s.len(),
{
    let whole = s.push('/') + name;
    lemma_entry_name(name);
    if s.len() == 0 {
        assert(whole.skip(1) =~= name);
        lemma_names_behind_filler(whole);
        assert(names_of(s) =~= Seq::<Seq<char>>::empty());
        assert(names_of(whole) =~= names_of(s).push(name));
        assert(skip_filler(whole) == skip_filler(name));
    } else if s[0] == '/' || dot_first(s) {
        assert(whole.skip(1) =~= s.skip(1).push('/') + name);
        assert(whole[0] == s[0]);
        assert(dot_first(s) ==> dot_first(whole));
        lemma_names_behind_filler(s);
        lemma_names_behind_filler(whole);
        lemma_name_behind(s.skip(1), name);
        assert(skip_filler(whole) == skip_filler(whole.skip(1)));
        let n = names_of(s).len();
        if n > 0 {
            assert(behind_names(whole, n) == behind_names(whole.skip(1), n));
        }
    } else {
        lemma_names_of_part(s);
        let n = part_len(s) as int;
        assert forall|i: int| 0 <= i < n implies #[trigger] whole[i] != '/' by {
            assert(whole[i] == s[i]);
        }
        assert(whole[0] == s[0]);
        assert(!dot_first(whole)) by {
            if dot_first(whole) && s.len() > 1 {
                assert(whole[1] == s[1]);
            }
        }
        lemma_part_len_is(whole, n);
        lemma_names_of_part(whole);
        assert(whole.take(n) =~= s.take(n));
        assert(whole.skip(n) =~= s.skip(n).push('/') + name);
        lemma_name_behind(s.skip(n), name);
        assert(names_of(whole) =~= names_of(s).push(name));
        let count = names_of(s).len();
        assert(names_of(s.skip(n)).len() == count - 1);
        assert(skip_filler(whole) == whole);
        assert(behind_names(whole, count) == behind_names(whole.skip(n), (count - 1) as nat));
    }
}

/// An entry of a directory is told by its name alone: below the directory, its path is the name.
pub proof fn law_relative_path_of_entry(dir: Seq<char>, name: Seq<char>)
    requires
        is_entry_name(name),
    ensures
        parts_of(joined(dir, name)) == parts_of(dir).push(name),
        below(dir, joined(dir, name)) == Some(name),
{
    lemma_entry_name(name);
    let whole = joined(dir, name);
    assert(name[0] != '/');
    if dir.len() == 0 {
        assert(whole =~= name);
        assert(parts_of(dir) =~= Seq::<Seq<char>>::empty()) by {
            assert(names_of(dir) =~= Seq::<Seq<char>>::empty());
        }
        assert(parts_of(whole) =~= parts_of(dir).push(name));
        assert(whole.skip(0) =~= whole);
        assert(whole.take(0) + whole =~= name);
        lemma_drop_filler_keeps_names(name);
    } else {
        let head = head_len(dir);
        let body = dir.skip(head);
        assert(dir.skip(0) =~= dir);
        assert(whole[0] == dir[0]);
        assert(head_len(whole) == head) by {
            if dir.len() > 1 {
                assert(whole[1] == dir[1]);
            }
        }
        let tail = whole.skip(head);
        // The text behind the head is a text, a slash and the name; or the name alone.
        if body.len() == 0 && dir.last() == '/' {
            assert(tail =~= name);
            assert(names_of(body) =~= Seq::<Seq<char>>::empty());
            assert(names_of(tail) =~= names_of(body).push(name));
            assert(skip_filler(behind_names(tail, 0)) == name);
        } else if dir.last() == '/' {
            let front = body.drop_last();
            assert(body.last() == '/');
            lemma_filler_at_end(body);
            assert(tail =~= front.push('/') + name);
            lemma_name_behind(front, name);
        } else {
            assert(tail =~= body.push('/') + name);
            lemma_name_behind(body, name);
        }
        assert(names_of(tail) == names_of(body).push(name));
        assert(parts_of(whole) =~= parts_of(dir).push(name)) by {
            assert(whole.take(1) =~= dir.take(1));
            assert(whole.skip(0) =~= whole);
        }
        let n = parts_of(dir).len();
        assert(n - head == names_of(body).len());
        assert(parts_of(dir).is_prefix_of(parts_of(whole)));
        lemma_drop_filler_keeps_names(name);
        assert(drop_filler(name) == name);
        assert(n > 0) by {
            lemma_skip_filler(dir);
            lemma_part_len(skip_filler(dir));
        }
    }
}

} // verus!

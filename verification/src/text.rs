//! Text operations on `str`, each stated over the sequence of characters it reads.

use vstd::prelude::*;
use vstd::string::*;
use vstd::utf8::*;

verus! {

/// A set of characters, used to split text and to trim it.
pub enum CharSet {
    /// One character.
    Only(char),
    /// The characters with the Unicode White_Space property.
    White,
    /// `,` and the space.
    CommaOrSpace,
    /// `\n` and `\r`.
    LineEnd,
}

/// The Unicode White_Space property.
pub open spec fn is_white(c: char) -> bool {
    ||| '\u{9}' <= c <= '\u{d}'
    ||| c == '\u{20}'
    ||| c == '\u{85}'
    ||| c == '\u{a0}'
    ||| c == '\u{1680}'
    ||| '\u{2000}' <= c <= '\u{200a}'
    ||| c == '\u{2028}'
    ||| c == '\u{2029}'
    ||| c == '\u{202f}'
    ||| c == '\u{205f}'
    ||| c == '\u{3000}'
}

impl CharSet {
    /// Membership in the set.
    pub open spec fn has(self, c: char) -> bool {
        match self {
            CharSet::Only(only) => c == only,
            CharSet::White => is_white(c),
            CharSet::CommaOrSpace => c == ',' || c == ' ',
            CharSet::LineEnd => c == '\n' || c == '\r',
        }
    }

    /// Decides membership in the set.
    pub fn contains(&self, c: char) -> (found: bool)
        ensures
            found == self.has(c),
    {
        match self {
            CharSet::Only(only) => c == *only,
            CharSet::White => is_whitespace(c),
            CharSet::CommaOrSpace => c == ',' || c == ' ',
            CharSet::LineEnd => c == '\n' || c == '\r',
        }
    }
}

/// Decides the Unicode White_Space property.
pub fn is_whitespace(c: char) -> (white: bool)
    ensures
        white == is_white(c),
{
    ('\u{9}' <= c && c <= '\u{d}') || c == '\u{20}' || c == '\u{85}' || c == '\u{a0}' || c
        == '\u{1680}' || ('\u{2000}' <= c && c <= '\u{200a}') || c == '\u{2028}' || c == '\u{2029}'
        || c == '\u{202f}' || c == '\u{205f}' || c == '\u{3000}'
}

/// The characters of `s`, in order.
pub fn chars_of(s: &str) -> (chars: Vec<char>)
    ensures
        chars@ == s@,
{
    let mut chars: Vec<char> = Vec::new();
    for c in iter: s.chars()
        invariant
            chars@ == s@.take(iter.index() as int),
            iter.seq() == s@,
    {
        chars.push(c);
    }
    chars
}

/// The characters of `chars` in `from..to`, as text.
pub fn string_of(chars: &Vec<char>, from: usize, to: usize) -> (s: String)
    requires
        from <= to <= chars@.len(),
    ensures
        s@ == chars@.subrange(from as int, to as int),
{
    let mut s = String::new();
    let mut i: usize = from;
    while i < to
        invariant
            from <= i <= to <= chars@.len(),
            s@ == chars@.subrange(from as int, i as int),
        decreases to - i,
    {
        s.push(chars[i]);
        i = i + 1;
    }
    s
}

/// Whether the two texts hold the same characters.
pub fn same(a: &str, b: &str) -> (equal: bool)
    ensures
        equal == (a@ == b@),
{
    let x = chars_of(a);
    let y = chars_of(b);
    if x.len() != y.len() {
        return false;
    }
    let mut i: usize = 0;
    while i < x.len()
        invariant
            x@ == a@,
            y@ == b@,
            x@.len() == y@.len(),
            i <= x@.len(),
            forall|j: int| 0 <= j < i ==> x@[j] == y@[j],
        decreases x@.len() - i,
    {
        if x[i] != y[i] {
            return false;
        }
        i = i + 1;
    }
    assert(a@ =~= b@);
    true
}

/// The length of `s` in UTF-8 bytes.
pub open spec fn byte_len_of(s: Seq<char>) -> nat {
    encode_utf8(s).len()
}

/// The length of `s` in UTF-8 bytes.
pub fn byte_len(s: &str) -> (len: usize)
    ensures
        len == byte_len_of(s@),
{
    let bytes = s.as_bytes();
    bytes.len()
}

// ---------------------------------------------------------------------------
// Searching

/// `needle` stands in `s` at `i`.
pub open spec fn occurs_at(s: Seq<char>, needle: Seq<char>, i: int) -> bool {
    0 <= i && i + needle.len() <= s.len() && s.subrange(i, i + needle.len()) == needle
}

/// `needle` stands somewhere in `s`.
pub open spec fn has_text(s: Seq<char>, needle: Seq<char>) -> bool {
    exists|i: int| occurs_at(s, needle, i)
}

/// The first place at or behind `from` where `needle` stands in `s`.
pub open spec fn find_from(s: Seq<char>, needle: Seq<char>, from: int) -> Option<int>
    decreases s.len() + 1 - from,
{
    if from < 0 || from + needle.len() > s.len() {
        None
    } else if occurs_at(s, needle, from) {
        Some(from)
    } else {
        find_from(s, needle, from + 1)
    }
}

/// The first place where `needle` stands in `s`.
pub open spec fn find_text(s: Seq<char>, needle: Seq<char>) -> Option<int> {
    find_from(s, needle, 0)
}

/// `find_from` gives the least place at or behind `from`, and none only where there is none.
pub proof fn lemma_find_from(s: Seq<char>, needle: Seq<char>, from: int)
    requires
        0 <= from,
    ensures
        match find_from(s, needle, from) {
            Some(i) => from <= i && occurs_at(s, needle, i) && forall|j: int|
                from <= j < i ==> !occurs_at(s, needle, j),
            None => forall|j: int| from <= j ==> !occurs_at(s, needle, j),
        },
    decreases s.len() + 1 - from,
{
    if from + needle.len() <= s.len() && !occurs_at(s, needle, from) {
        lemma_find_from(s, needle, from + 1);
    }
}

/// The first place where `needle` stands in `s` is found exactly where there is one.
pub proof fn lemma_find_text(s: Seq<char>, needle: Seq<char>)
    ensures
        find_text(s, needle) is Some <==> has_text(s, needle),
        find_text(s, needle) matches Some(i) ==> occurs_at(s, needle, i) && forall|j: int|
            0 <= j < i ==> !occurs_at(s, needle, j),
{
    lemma_find_from(s, needle, 0);
}

fn matches_at(chars: &Vec<char>, needle: &Vec<char>, at: usize) -> (found: bool)
    requires
        at + needle@.len() <= chars@.len(),
    ensures
        found == occurs_at(chars@, needle@, at as int),
{
    let total: usize = chars.len();
    let mut k: usize = 0;
    while k < needle.len()
        invariant
            total == chars@.len(),
            at + needle@.len() <= total,
            k <= needle@.len(),
            forall|j: int| 0 <= j < k ==> chars@[at + j] == needle@[j],
        decreases needle@.len() - k,
    {
        if chars[at + k] != needle[k] {
            proof {
                let sub = chars@.subrange(at as int, at + needle@.len());
                assert(sub[k as int] == chars@[at + k]);
            }
            return false;
        }
        k = k + 1;
    }
    assert(chars@.subrange(at as int, at + needle@.len()) =~= needle@);
    true
}

fn find_in(chars: &Vec<char>, needle: &Vec<char>) -> (found: Option<usize>)
    ensures
        match found {
            Some(i) => find_text(chars@, needle@) == Some(i as int) && i + needle@.len()
                <= chars@.len(),
            None => find_text(chars@, needle@) is None,
        },
{
    if needle.len() > chars.len() {
        return None;
    }
    let last: usize = chars.len() - needle.len();
    let mut i: usize = 0;
    loop
        invariant
            last + needle@.len() == chars@.len(),
            i <= last,
            find_text(chars@, needle@) == find_from(chars@, needle@, i as int),
        decreases last - i,
    {
        if matches_at(chars, needle, i) {
            return Some(i);
        }
        if i == last {
            assert(find_from(chars@, needle@, i + 1) is None);
            return None;
        }
        i = i + 1;
    }
}

/// Whether `needle` stands somewhere in `s`.
pub fn contains(s: &str, needle: &str) -> (found: bool)
    ensures
        found == has_text(s@, needle@),
{
    let chars = chars_of(s);
    let wanted = chars_of(needle);
    proof {
        lemma_find_text(s@, needle@);
    }
    match find_in(&chars, &wanted) {
        Some(_) => true,
        None => false,
    }
}

/// Whether `s` begins with `prefix`.
pub fn starts_with(s: &str, prefix: &str) -> (found: bool)
    ensures
        found == prefix@.is_prefix_of(s@),
{
    let chars = chars_of(s);
    let wanted = chars_of(prefix);
    wanted.len() <= chars.len() && matches_at(&chars, &wanted, 0)
}

/// `s` behind `prefix`, where `s` begins with it.
pub open spec fn behind_prefix(s: Seq<char>, prefix: Seq<char>) -> Option<Seq<char>> {
    if prefix.is_prefix_of(s) {
        Some(s.skip(prefix.len() as int))
    } else {
        None
    }
}

/// `s` behind `prefix`, where `s` begins with it.
pub fn strip_prefix(s: &str, prefix: &str) -> (rest: Option<String>)
    ensures
        rest.deep_view() == behind_prefix(s@, prefix@),
{
    let chars = chars_of(s);
    let wanted = chars_of(prefix);
    if wanted.len() <= chars.len() && matches_at(&chars, &wanted, 0) {
        Some(string_of(&chars, wanted.len(), chars.len()))
    } else {
        None
    }
}

/// `s` without `suffix` at its end, where it has it there.
pub open spec fn without_suffix(s: Seq<char>, suffix: Seq<char>) -> Seq<char> {
    if suffix.is_suffix_of(s) {
        s.take(s.len() - suffix.len())
    } else {
        s
    }
}

/// `s` without `suffix` at its end, where it has it there.
pub fn drop_suffix(s: &str, suffix: &str) -> (rest: String)
    ensures
        rest@ == without_suffix(s@, suffix@),
{
    let chars = chars_of(s);
    let wanted = chars_of(suffix);
    if wanted.len() <= chars.len() && matches_at(&chars, &wanted, chars.len() - wanted.len()) {
        string_of(&chars, 0, chars.len() - wanted.len())
    } else {
        s.to_string()
    }
}

/// What stands before and behind the first `sep` in `s`.
pub open spec fn around_first(s: Seq<char>, sep: Seq<char>) -> Option<(Seq<char>, Seq<char>)> {
    match find_text(s, sep) {
        Some(i) => Some((s.take(i), s.skip(i + sep.len()))),
        None => None,
    }
}

/// What stands before and behind the first `sep` in `s`.
pub fn split_once(s: &str, sep: &str) -> (parts: Option<(String, String)>)
    ensures
        parts.deep_view() == around_first(s@, sep@),
{
    let chars = chars_of(s);
    let wanted = chars_of(sep);
    match find_in(&chars, &wanted) {
        Some(i) => {
            let total: usize = chars.len();
            let before = string_of(&chars, 0, i);
            let behind = string_of(&chars, i + wanted.len(), total);
            Some((before, behind))
        },
        None => None,
    }
}

// ---------------------------------------------------------------------------
// Splitting

/// The pieces of `s` between the characters of `set`, read from left to right: a character of
/// the set opens a new piece, any other character extends the last one.
pub open spec fn pieces(s: Seq<char>, set: CharSet) -> Seq<Seq<char>>
    decreases s.len(),
{
    if s.len() == 0 {
        seq![Seq::<char>::empty()]
    } else {
        let before = pieces(s.drop_last(), set);
        if set.has(s.last()) {
            before.push(Seq::<char>::empty())
        } else {
            before.drop_last().push(before.last().push(s.last()))
        }
    }
}

/// Text has at least one piece.
pub proof fn lemma_pieces_len(s: Seq<char>, set: CharSet)
    ensures
        pieces(s, set).len() >= 1,
    decreases s.len(),
{
    if s.len() > 0 {
        lemma_pieces_len(s.drop_last(), set);
    }
}

/// The pieces of `s` between the characters of `set`.
pub fn split(s: &str, set: &CharSet) -> (parts: Vec<String>)
    ensures
        parts.deep_view() == pieces(s@, *set),
        parts@.len() >= 1,
{
    let chars = chars_of(s);
    let mut done: Vec<String> = Vec::new();
    let mut piece = String::new();
    let mut i: usize = 0;
    assert(chars@.take(0) =~= Seq::<char>::empty());
    assert(done.deep_view().push(piece@) =~= seq![Seq::<char>::empty()]);
    while i < chars.len()
        invariant
            chars@ == s@,
            i <= chars@.len(),
            done.deep_view().push(piece@) == pieces(chars@.take(i as int), *set),
        decreases chars@.len() - i,
    {
        let ghost before = done.deep_view().push(piece@);
        proof {
            assert(chars@.take(i + 1).drop_last() =~= chars@.take(i as int));
            assert(before.drop_last() =~= done.deep_view());
        }
        let c = chars[i];
        if set.contains(c) {
            done.push(piece);
            piece = String::new();
            assert(done.deep_view() =~= before);
        } else {
            piece.push(c);
        }
        i = i + 1;
    }
    assert(chars@.take(i as int) =~= s@);
    let ghost before = done.deep_view().push(piece@);
    done.push(piece);
    assert(done.deep_view() =~= before);
    done
}

/// A line without the carriage return before its line feed.
pub open spec fn without_return(line: Seq<char>) -> Seq<char> {
    if line.len() > 0 && line.last() == '\r' {
        line.drop_last()
    } else {
        line
    }
}

/// The lines of `s`: a line ends with `\n` or `\r\n`, and the last one may end with the text.
pub open spec fn lines_of(s: Seq<char>) -> Seq<Seq<char>> {
    let parts = pieces(s, CharSet::Only('\n'));
    let ended = parts.drop_last().map_values(|line: Seq<char>| without_return(line));
    if parts.last().len() == 0 {
        ended
    } else {
        ended.push(parts.last())
    }
}

/// The lines of `s`.
pub fn lines(s: &str) -> (found: Vec<String>)
    ensures
        found.deep_view() == lines_of(s@),
{
    let parts = split(s, &CharSet::Only('\n'));
    let ghost all = parts.deep_view();
    let mut found: Vec<String> = Vec::new();
    let last: usize = parts.len() - 1;
    let mut i: usize = 0;
    while i < last
        invariant
            i <= last,
            last + 1 == parts@.len(),
            all == parts.deep_view(),
            found.deep_view() =~= all.take(i as int).map_values(
                |line: Seq<char>| without_return(line),
            ),
        decreases last - i,
    {
        assert(all[i as int] == parts@[i as int]@);
        let line = drop_return(&parts[i]);
        let ghost before = found.deep_view();
        found.push(line);
        assert(found.deep_view() =~= before.push(line@));
        i = i + 1;
    }
    assert(all.drop_last() =~= all.take(last as int));
    assert(all.last() == parts@[last as int]@);
    if !parts[last].as_str().is_empty() {
        let ghost before = found.deep_view();
        let line = parts[last].clone();
        found.push(line);
        assert(found.deep_view() =~= before.push(line@));
    }
    found
}

fn drop_return(line: &String) -> (rest: String)
    ensures
        rest@ == without_return(line@),
{
    let chars = chars_of(line.as_str());
    if chars.len() > 0 && chars[chars.len() - 1] == '\r' {
        string_of(&chars, 0, chars.len() - 1)
    } else {
        line.clone()
    }
}

/// The lines of a text, each with its line feed.
pub open spec fn terminated(lines: Seq<Seq<char>>) -> Seq<char>
    decreases lines.len(),
{
    if lines.len() == 0 {
        Seq::empty()
    } else {
        terminated(lines.drop_last()) + lines.last() + "\n"@
    }
}

// ---------------------------------------------------------------------------
// Trimming

/// `s` without the characters of `set` that it begins with.
pub open spec fn without_front(s: Seq<char>, set: CharSet) -> Seq<char>
    decreases s.len(),
{
    if s.len() > 0 && set.has(s[0]) {
        without_front(s.drop_first(), set)
    } else {
        s
    }
}

/// `s` without the characters of `set` that it ends with.
pub open spec fn without_back(s: Seq<char>, set: CharSet) -> Seq<char>
    decreases s.len(),
{
    if s.len() > 0 && set.has(s.last()) {
        without_back(s.drop_last(), set)
    } else {
        s
    }
}

/// `s` without the white space around it.
pub open spec fn trimmed(s: Seq<char>) -> Seq<char> {
    without_back(without_front(s, CharSet::White), CharSet::White)
}

/// `s` holds nothing but white space.
pub open spec fn is_blank(s: Seq<char>) -> bool {
    trimmed(s).len() == 0
}

fn front_len(chars: &Vec<char>, set: &CharSet) -> (from: usize)
    ensures
        from <= chars@.len(),
        without_front(chars@, *set) == chars@.skip(from as int),
{
    let mut from: usize = 0;
    assert(chars@.skip(0) =~= chars@);
    while from < chars.len() && set.contains(chars[from])
        invariant
            from <= chars@.len(),
            without_front(chars@, *set) == without_front(chars@.skip(from as int), *set),
        decreases chars@.len() - from,
    {
        assert(chars@.skip(from as int).drop_first() =~= chars@.skip(from + 1));
        from = from + 1;
    }
    from
}

fn back_len(chars: &Vec<char>, from: usize, set: &CharSet) -> (to: usize)
    requires
        from <= chars@.len(),
    ensures
        from <= to <= chars@.len(),
        without_back(chars@.skip(from as int), *set) == chars@.subrange(from as int, to as int),
{
    let mut to: usize = chars.len();
    assert(chars@.subrange(from as int, to as int) =~= chars@.skip(from as int));
    while to > from && set.contains(chars[to - 1])
        invariant
            from <= to <= chars@.len(),
            without_back(chars@.skip(from as int), *set) == without_back(
                chars@.subrange(from as int, to as int),
                *set,
            ),
        decreases to,
    {
        assert(chars@.subrange(from as int, to as int).drop_last() =~= chars@.subrange(
            from as int,
            to - 1,
        ));
        to = to - 1;
    }
    to
}

/// `s` without the white space around it.
pub fn trim(s: &str) -> (rest: String)
    ensures
        rest@ == trimmed(s@),
{
    let chars = chars_of(s);
    let from = front_len(&chars, &CharSet::White);
    let to = back_len(&chars, from, &CharSet::White);
    string_of(&chars, from, to)
}

/// `s` without the characters of `set` that it ends with.
pub fn trim_end(s: &str, set: &CharSet) -> (rest: String)
    ensures
        rest@ == without_back(s@, *set),
{
    let chars = chars_of(s);
    let to = back_len(&chars, 0, set);
    assert(chars@.skip(0) =~= chars@);
    string_of(&chars, 0, to)
}

/// Whether `s` holds nothing but white space.
pub fn blank(s: &str) -> (empty: bool)
    ensures
        empty == is_blank(s@),
{
    trim(s).as_str().is_empty()
}

/// The words of `s`: its pieces between the characters of `set` that are not empty.
pub open spec fn words_of(s: Seq<char>, set: CharSet) -> Seq<Seq<char>> {
    pieces(s, set).filter(|word: Seq<char>| word.len() > 0)
}

/// The pieces of `s` between the characters of `set` that are not empty.
pub fn words(s: &str, set: &CharSet) -> (found: Vec<String>)
    ensures
        found.deep_view() == words_of(s@, *set),
{
    let parts = split(s, set);
    without_empty(&parts)
}

/// The texts of `parts` that are not empty, in order.
pub fn without_empty(parts: &Vec<String>) -> (found: Vec<String>)
    ensures
        found.deep_view() == parts.deep_view().filter(|word: Seq<char>| word.len() > 0),
{
    let ghost all = parts.deep_view();
    let ghost keep = |word: Seq<char>| word.len() > 0;
    let mut found: Vec<String> = Vec::new();
    let mut i: usize = 0;
    assert(all.take(0).filter(keep) =~= Seq::<Seq<char>>::empty()) by {
        reveal(Seq::filter);
    }
    while i < parts.len()
        invariant
            i <= parts@.len(),
            all == parts.deep_view(),
            keep == (|word: Seq<char>| word.len() > 0),
            found.deep_view() =~= all.take(i as int).filter(keep),
        decreases parts@.len() - i,
    {
        proof {
            assert(all[i as int] == parts@[i as int]@);
            assert(all.take(i + 1) =~= all.take(i as int).push(all[i as int]));
            all.take(i as int).lemma_filter_push(all[i as int], keep);
        }
        if !parts[i].as_str().is_empty() {
            let ghost before = found.deep_view();
            let part = parts[i].clone();
            found.push(part);
            assert(found.deep_view() =~= before.push(part@));
        }
        i = i + 1;
    }
    assert(all.take(i as int) =~= all);
    found
}

/// The lines of `s` that hold more than white space.
pub open spec fn nonblank_lines_of(s: Seq<char>) -> Seq<Seq<char>> {
    lines_of(s).filter(|line: Seq<char>| !is_blank(line))
}

/// The lines of `s` that hold more than white space.
pub fn nonblank_lines(s: &str) -> (found: Vec<String>)
    ensures
        found.deep_view() == nonblank_lines_of(s@),
{
    let parts = lines(s);
    let ghost all = parts.deep_view();
    let ghost keep = |line: Seq<char>| !is_blank(line);
    let mut found: Vec<String> = Vec::new();
    let mut i: usize = 0;
    assert(all.take(0).filter(keep) =~= Seq::<Seq<char>>::empty()) by {
        reveal(Seq::filter);
    }
    while i < parts.len()
        invariant
            i <= parts@.len(),
            all == parts.deep_view(),
            keep == (|line: Seq<char>| !is_blank(line)),
            found.deep_view() =~= all.take(i as int).filter(keep),
        decreases parts@.len() - i,
    {
        proof {
            assert(all[i as int] == parts@[i as int]@);
            assert(all.take(i + 1) =~= all.take(i as int).push(all[i as int]));
            all.take(i as int).lemma_filter_push(all[i as int], keep);
        }
        if !blank(parts[i].as_str()) {
            let ghost before = found.deep_view();
            let part = parts[i].clone();
            found.push(part);
            assert(found.deep_view() =~= before.push(part@));
        }
        i = i + 1;
    }
    assert(all.take(i as int) =~= all);
    found
}

/// The lines of `s` without the white space around them, where anything is left.
pub open spec fn trimmed_lines_of(s: Seq<char>) -> Seq<Seq<char>> {
    lines_of(s).map_values(|line: Seq<char>| trimmed(line)).filter(
        |word: Seq<char>| word.len() > 0,
    )
}

/// The lines of `s` without the white space around them, where anything is left.
pub fn trimmed_lines(s: &str) -> (found: Vec<String>)
    ensures
        found.deep_view() == trimmed_lines_of(s@),
{
    let parts = lines(s);
    let ghost all = parts.deep_view();
    let mut cut: Vec<String> = Vec::new();
    let mut i: usize = 0;
    while i < parts.len()
        invariant
            i <= parts@.len(),
            all == parts.deep_view(),
            cut.deep_view() =~= all.take(i as int).map_values(|line: Seq<char>| trimmed(line)),
        decreases parts@.len() - i,
    {
        assert(all[i as int] == parts@[i as int]@);
        let line = trim(parts[i].as_str());
        let ghost before = cut.deep_view();
        cut.push(line);
        assert(cut.deep_view() =~= before.push(line@));
        i = i + 1;
    }
    assert(all.take(i as int) =~= all);
    without_empty(&cut)
}

// ---------------------------------------------------------------------------
// Lists of texts

/// A copy of a text, where there is one.
pub fn copy_text(text: &Option<String>) -> (copy: Option<String>)
    ensures
        copy.deep_view() == text.deep_view(),
{
    match text {
        Some(text) => Some(text.clone()),
        None => None,
    }
}

/// A copy of a list of texts.
pub fn copy_texts(texts: &Vec<String>) -> (copy: Vec<String>)
    ensures
        copy.deep_view() == texts.deep_view(),
{
    let mut copy: Vec<String> = Vec::new();
    let mut i: usize = 0;
    while i < texts.len()
        invariant
            i <= texts@.len(),
            copy.deep_view() =~= texts.deep_view().take(i as int),
        decreases texts@.len() - i,
    {
        let ghost before = copy.deep_view();
        let text = texts[i].clone();
        copy.push(text);
        assert(copy.deep_view() =~= before.push(text@));
        i = i + 1;
    }
    copy
}

/// Whether `text` stands in the list.
pub fn list_has(texts: &Vec<String>, text: &str) -> (found: bool)
    ensures
        found == texts.deep_view().contains(text@),
{
    let ghost all = texts.deep_view();
    let mut i: usize = 0;
    while i < texts.len()
        invariant
            i <= texts@.len(),
            all == texts.deep_view(),
            forall|j: int| 0 <= j < i ==> all[j] != text@,
        decreases texts@.len() - i,
    {
        assert(all[i as int] == texts@[i as int]@);
        if same(texts[i].as_str(), text) {
            return true;
        }
        i = i + 1;
    }
    false
}

/// The texts of a list with `sep` between them.
pub open spec fn joined_with(texts: Seq<Seq<char>>, sep: Seq<char>) -> Seq<char>
    decreases texts.len(),
{
    if texts.len() == 0 {
        Seq::empty()
    } else if texts.len() == 1 {
        texts[0]
    } else {
        joined_with(texts.drop_last(), sep) + sep + texts.last()
    }
}

/// The texts of a list with `sep` between them.
pub fn join(texts: &Vec<String>, sep: &str) -> (whole: String)
    ensures
        whole@ == joined_with(texts.deep_view(), sep@),
{
    let ghost all = texts.deep_view();
    let mut whole = String::new();
    let mut i: usize = 0;
    while i < texts.len()
        invariant
            i <= texts@.len(),
            all == texts.deep_view(),
            whole@ =~= joined_with(all.take(i as int), sep@),
        decreases texts@.len() - i,
    {
        proof {
            assert(all[i as int] == texts@[i as int]@);
            assert(all.take(i + 1).drop_last() =~= all.take(i as int));
        }
        if i > 0 {
            whole.append(sep);
        }
        whole.append(texts[i].as_str());
        i = i + 1;
    }
    assert(all.take(i as int) =~= all);
    whole
}

// ---------------------------------------------------------------------------
// Laws

/// The sets of characters: one character alone; the comma and the space; the two line ends; and
/// the white space, of which ASCII has six.
pub proof fn law_character_sets(only: char, c: char)
    ensures
        CharSet::Only(only).has(c) <==> c == only,
        CharSet::CommaOrSpace.has(c) <==> c == ',' || c == ' ',
        CharSet::LineEnd.has(c) <==> c == '\n' || c == '\r',
        CharSet::White.has(c) <==> is_white(c),
        c <= '\u{7f}' ==> (is_white(c) <==> c == ' ' || c == '\t' || c == '\n' || c == '\u{b}' || c
            == '\u{c}' || c == '\r'),
{
}

/// A text behind a prefix is what follows the prefix; one without the prefix has nothing behind it.
pub proof fn law_prefix_is_taken_off(s: Seq<char>, prefix: Seq<char>)
    ensures
        behind_prefix(prefix + s, prefix) == Some(s),
        behind_prefix(s, prefix) matches Some(rest) ==> s == prefix + rest,
        behind_prefix(s, prefix) is None <==> !exists|rest: Seq<char>|
            s == #[trigger] (prefix + rest),
{
    let whole = prefix + s;
    assert(whole.subrange(0, prefix.len() as int) =~= prefix);
    assert(whole.skip(prefix.len() as int) =~= s);
    if let Some(rest) = behind_prefix(s, prefix) {
        assert(s.subrange(0, prefix.len() as int) =~= prefix);
        assert(s =~= prefix + rest);
    }
    if exists|rest: Seq<char>| s == #[trigger] (prefix + rest) {
        let rest = choose|rest: Seq<char>| s == #[trigger] (prefix + rest);
        assert(s.subrange(0, prefix.len() as int) =~= prefix);
        assert(prefix.is_prefix_of(s));
    }
}

/// A suffix is taken off once where it is there, and nothing is taken off where it is not.
pub proof fn law_suffix_is_taken_off(s: Seq<char>, suffix: Seq<char>)
    ensures
        without_suffix(s + suffix, suffix) == s,
        (forall|front: Seq<char>| s != #[trigger] (front + suffix)) ==> without_suffix(s, suffix)
            == s,
{
    let whole = s + suffix;
    assert(whole.subrange(s.len() as int, whole.len() as int) =~= suffix);
    assert(suffix.is_suffix_of(whole));
    assert(whole.take(s.len() as int) =~= s);
    if suffix.is_suffix_of(s) {
        let front = s.take(s.len() - suffix.len());
        assert(s.subrange(s.len() - suffix.len(), s.len() as int) =~= suffix);
        assert(s =~= front + suffix);
    }
}

/// A text stands in another exactly if the other is something, the text, and something.
pub proof fn law_text_stands_between_sides(s: Seq<char>, needle: Seq<char>)
    ensures
        has_text(s, needle) <==> exists|before: Seq<char>, behind: Seq<char>|
            s == #[trigger] (before + needle + behind),
{
    if has_text(s, needle) {
        let i = choose|i: int| occurs_at(s, needle, i);
        let before = s.take(i);
        let behind = s.skip(i + needle.len());
        assert(s.subrange(i, i + needle.len()) == needle);
        assert(s =~= before + needle + behind);
    }
    if exists|before: Seq<char>, behind: Seq<char>| s == #[trigger] (before + needle + behind) {
        let (before, behind) = choose|before: Seq<char>, behind: Seq<char>|
            s == #[trigger] (before + needle + behind);
        let i = before.len() as int;
        assert(s.subrange(i, i + needle.len()) =~= needle);
        assert(occurs_at(s, needle, i));
    }
}

/// A text is parted at the first separator: what stands before it and behind it make up the text,
/// and the separator does not end any earlier.
pub proof fn law_parted_at_first_separator(s: Seq<char>, sep: Seq<char>)
    requires
        sep.len() > 0,
    ensures
        around_first(s, sep) is Some <==> has_text(s, sep),
        around_first(s, sep) matches Some((before, behind)) ==> s == before + sep + behind
            && !has_text(before + sep.drop_last(), sep),
{
    lemma_find_text(s, sep);
    if let Some((before, behind)) = around_first(s, sep) {
        let i = find_text(s, sep)->0;
        assert(s.subrange(i, i + sep.len()) == sep);
        assert(s =~= before + sep + behind);
        let front = before + sep.drop_last();
        if has_text(front, sep) {
            let j = choose|j: int| occurs_at(front, sep, j);
            assert(front.subrange(j, j + sep.len()) =~= s.subrange(j, j + sep.len()));
            assert(occurs_at(s, sep, j));
        }
    }
}

/// A text is parted where its first separator was put: what stands before and behind it is found
/// again.
pub proof fn law_first_separator_parts(before: Seq<char>, sep: Seq<char>, behind: Seq<char>)
    requires
        sep.len() > 0,
        !has_text(before + sep.drop_last(), sep),
    ensures
        find_text(before + sep + behind, sep) == Some(before.len() as int),
        around_first(before + sep + behind, sep) == Some((before, behind)),
{
    let s = before + sep + behind;
    let front = before + sep.drop_last();
    let at = before.len() as int;
    lemma_find_text(s, sep);
    assert(s.subrange(at, at + sep.len()) =~= sep);
    assert(occurs_at(s, sep, at));
    assert forall|j: int| 0 <= j < at implies !occurs_at(s, sep, j) by {
        if occurs_at(s, sep, j) {
            assert(front.subrange(j, j + sep.len()) =~= s.subrange(j, j + sep.len()));
            assert(occurs_at(front, sep, j));
        }
    }
    assert(s.take(at) =~= before);
    assert(s.skip(at + sep.len()) =~= behind);
}

/// A character that a text does not hold does not stand in it.
pub proof fn lemma_lacking_char(s: Seq<char>, c: char)
    requires
        !s.contains(c),
    ensures
        !has_text(s, seq![c]),
{
    if has_text(s, seq![c]) {
        let i = choose|i: int| occurs_at(s, seq![c], i);
        assert(s.subrange(i, i + 1)[0] == seq![c][0]);
        assert(s.contains(s[i]));
    }
}

/// A text is blank exactly if each of its characters is white space.
pub proof fn law_blank_text_is_white(s: Seq<char>)
    ensures
        is_blank(s) <==> forall|i: int| 0 <= i < s.len() ==> is_white(#[trigger] s[i]),
{
    lemma_trimmed_between(s);
    let (a, b) = choose|a: Seq<char>, b: Seq<char>|
        s == #[trigger] (a + trimmed(s) + b) && all_white(a) && all_white(b);
    if is_blank(s) {
        assert forall|i: int| 0 <= i < s.len() implies is_white(#[trigger] s[i]) by {
            if i < a.len() {
                assert(is_white(a[i]));
            } else {
                assert(is_white(b[i - a.len()]));
            }
        }
    } else {
        law_trimmed_text_is_tight(s);
        assert(s[a.len() as int] == trimmed(s)[0]);
    }
}

/// Every character is white space.
pub open spec fn all_white(s: Seq<char>) -> bool {
    forall|i: int| 0 <= i < s.len() ==> is_white(#[trigger] s[i])
}

/// Trimming takes white space off the ends, and nothing else: a text is white space, the trimmed
/// text, and white space.
pub proof fn law_trimming_takes_white_space(s: Seq<char>)
    ensures
        exists|a: Seq<char>, b: Seq<char>|
            s == #[trigger] (a + trimmed(s) + b) && all_white(a) && all_white(b),
{
    lemma_trimmed_between(s);
}

/// White space around a text makes no difference to what is left of it.
pub proof fn law_white_space_around_makes_no_difference(a: Seq<char>, s: Seq<char>, b: Seq<char>)
    requires
        all_white(a),
        all_white(b),
        s.len() > 0,
        !is_white(s[0]),
        !is_white(s.last()),
    ensures
        trimmed(a + s + b) == s,
{
    lemma_front_taken(a, s + b);
    assert(a + s + b =~= a + (s + b));
    law_cut_off_the_last_part(s, b, CharSet::White);
    lemma_back_taken(b);
    assert(s + Seq::<char>::empty() =~= s);
}

proof fn lemma_front_taken(a: Seq<char>, s: Seq<char>)
    requires
        all_white(a),
        s.len() == 0 || !is_white(s[0]),
    ensures
        without_front(a + s, CharSet::White) == s,
    decreases a.len(),
{
    if a.len() == 0 {
        assert(a + s =~= s);
    } else {
        assert(is_white(a[0]));
        let rest = a.drop_first();
        assert forall|i: int| 0 <= i < rest.len() implies is_white(#[trigger] rest[i]) by {
            assert(is_white(a[i + 1]));
        }
        lemma_front_taken(rest, s);
        assert((a + s).drop_first() =~= rest + s);
    }
}

proof fn lemma_back_taken(b: Seq<char>)
    requires
        all_white(b),
    ensures
        without_back(b, CharSet::White) == Seq::<char>::empty(),
    decreases b.len(),
{
    if b.len() > 0 {
        assert(is_white(b[b.len() - 1]));
        let rest = b.drop_last();
        assert forall|i: int| 0 <= i < rest.len() implies is_white(#[trigger] rest[i]) by {
            assert(is_white(b[i]));
        }
        lemma_back_taken(rest);
    } else {
        assert(b =~= Seq::<char>::empty());
    }
}

proof fn lemma_trimmed_between(s: Seq<char>)
    ensures
        exists|a: Seq<char>, b: Seq<char>|
            s == #[trigger] (a + trimmed(s) + b) && all_white(a) && all_white(b),
{
    let a = lemma_front_part(s);
    let middle = without_front(s, CharSet::White);
    let b = lemma_back_part(middle);
    assert(s =~= a + trimmed(s) + b);
}

proof fn lemma_front_part(s: Seq<char>) -> (a: Seq<char>)
    ensures
        s == a + without_front(s, CharSet::White),
        all_white(a),
    decreases s.len(),
{
    if s.len() > 0 && is_white(s[0]) {
        let rest = lemma_front_part(s.drop_first());
        let a = seq![s[0]] + rest;
        assert(without_front(s, CharSet::White) == without_front(s.drop_first(), CharSet::White));
        assert(s =~= seq![s[0]] + s.drop_first());
        assert(s =~= a + without_front(s, CharSet::White));
        assert forall|i: int| 0 <= i < a.len() implies is_white(#[trigger] a[i]) by {
            if i > 0 {
                assert(is_white(rest[i - 1]));
            }
        }
        a
    } else {
        assert(s =~= Seq::<char>::empty() + s);
        Seq::empty()
    }
}

proof fn lemma_back_part(s: Seq<char>) -> (b: Seq<char>)
    ensures
        s == without_back(s, CharSet::White) + b,
        all_white(b),
    decreases s.len(),
{
    if s.len() > 0 && is_white(s.last()) {
        let rest = lemma_back_part(s.drop_last());
        let b = rest.push(s.last());
        assert(without_back(s, CharSet::White) == without_back(s.drop_last(), CharSet::White));
        assert(s =~= s.drop_last().push(s.last()));
        assert(s =~= without_back(s, CharSet::White) + b);
        assert forall|i: int| 0 <= i < b.len() implies is_white(#[trigger] b[i]) by {
            if i < rest.len() {
                assert(is_white(rest[i]));
            }
        }
        b
    } else {
        assert(s =~= s + Seq::<char>::empty());
        Seq::empty()
    }
}

/// Text around a character of the set has the pieces of both sides.
pub proof fn law_pieces_of_two_sides(a: Seq<char>, c: char, b: Seq<char>, set: CharSet)
    requires
        set.has(c),
    ensures
        pieces(a.push(c) + b, set) == pieces(a, set) + pieces(b, set),
    decreases b.len(),
{
    let whole = a.push(c) + b;
    lemma_pieces_len(a, set);
    if b.len() == 0 {
        assert(whole.drop_last() =~= a);
        assert(pieces(whole, set) =~= pieces(a, set) + pieces(b, set));
    } else {
        law_pieces_of_two_sides(a, c, b.drop_last(), set);
        lemma_pieces_len(b.drop_last(), set);
        assert(whole.drop_last() =~= a.push(c) + b.drop_last());
        assert(pieces(whole, set) =~= pieces(a, set) + pieces(b, set));
    }
}

/// Text without a character of the set is one piece.
pub proof fn law_pieces_of_plain_text(s: Seq<char>, set: CharSet)
    requires
        forall|i: int| 0 <= i < s.len() ==> !set.has(#[trigger] s[i]),
    ensures
        pieces(s, set) == seq![s],
    decreases s.len(),
{
    if s.len() > 0 {
        let rest = s.drop_last();
        assert forall|i: int| 0 <= i < rest.len() implies !set.has(#[trigger] rest[i]) by {
            assert(rest[i] == s[i]);
        }
        law_pieces_of_plain_text(rest, set);
        assert(!set.has(s[s.len() - 1]));
        assert(rest.push(s.last()) =~= s);
        assert(seq![rest].drop_last().push(rest.push(s.last())) =~= seq![s]);
    } else {
        assert(s =~= Seq::empty());
    }
}

/// Splitting undoes joining: texts that do not hold the separator are the pieces of their join.
pub proof fn law_split_undoes_join(texts: Seq<Seq<char>>, sep: char)
    requires
        texts.len() > 0,
        forall|i: int| 0 <= i < texts.len() ==> !(#[trigger] texts[i]).contains(sep),
    ensures
        pieces(joined_with(texts, seq![sep]), CharSet::Only(sep)) == texts,
    decreases texts.len(),
{
    let set = CharSet::Only(sep);
    let last = texts.last();
    assert(!texts[texts.len() - 1].contains(sep));
    law_pieces_of_plain_text(last, set);
    if texts.len() == 1 {
        assert(texts =~= seq![last]);
    } else {
        let front = texts.drop_last();
        assert forall|i: int| 0 <= i < front.len() implies !(#[trigger] front[i]).contains(sep) by {
            assert(front[i] == texts[i]);
        }
        law_split_undoes_join(front, sep);
        let head = joined_with(front, seq![sep]);
        law_pieces_of_two_sides(head, sep, last, set);
        assert(head + seq![sep] + last =~= head.push(sep) + last);
        assert(front + seq![last] =~= texts);
    }
}

/// A text that can be a line as it is: it holds no line feed and does not end with a carriage
/// return.
pub open spec fn is_line(s: Seq<char>) -> bool {
    !s.contains('\n') && (s.len() > 0 ==> s.last() != '\r')
}

proof fn lemma_terminated_pieces(lines: Seq<Seq<char>>)
    requires
        forall|i: int| 0 <= i < lines.len() ==> is_line(#[trigger] lines[i]),
    ensures
        pieces(terminated(lines), CharSet::Only('\n')) == lines.push(Seq::<char>::empty()),
    decreases lines.len(),
{
    let set = CharSet::Only('\n');
    let none = Seq::<char>::empty();
    reveal_strlit("\n");
    if lines.len() == 0 {
        assert(lines.push(none) =~= seq![none]);
    } else {
        let front = lines.drop_last();
        let last = lines.last();
        assert forall|i: int| 0 <= i < front.len() implies is_line(#[trigger] front[i]) by {
            assert(front[i] == lines[i]);
        }
        lemma_terminated_pieces(front);
        assert(is_line(lines[lines.len() - 1]));
        law_pieces_of_plain_text(last, set);
        let head = terminated(front);
        law_pieces_of_two_sides(head + last, '\n', none, set);
        assert(head + last + "\n"@ =~= (head + last).push('\n') + none);
        law_pieces_of_plain_text(none, set);
        if front.len() > 0 {
            let before = (head.drop_last()).push('\n');
            assert(head =~= before) by {
                assert(head.last() == '\n');
            }
            law_pieces_of_two_sides(head.drop_last(), '\n', last, set);
            law_pieces_of_two_sides(head.drop_last(), '\n', none, set);
            assert(head.drop_last().push('\n') + none =~= head);
            let shown = pieces(head.drop_last(), set);
            assert(shown + seq![none] =~= front.push(none));
            assert(shown =~= front) by {
                assert(shown.len() == front.len());
                assert forall|i: int| 0 <= i < front.len() implies shown[i] == front[i] by {
                    assert((shown + seq![none])[i] == front.push(none)[i]);
                }
            }
            assert(front + seq![last] + seq![none] =~= lines.push(none));
        } else {
            assert(head + last =~= last);
            assert(seq![last] + seq![none] =~= lines.push(none));
        }
    }
}

/// Texts that can be lines are read back from a text that holds each of them with its line feed.
pub proof fn law_lines_read_back(lines: Seq<Seq<char>>)
    requires
        forall|i: int| 0 <= i < lines.len() ==> is_line(#[trigger] lines[i]),
    ensures
        lines_of(terminated(lines)) == lines,
{
    lemma_terminated_pieces(lines);
    let parts = lines.push(Seq::<char>::empty());
    assert(parts.drop_last() =~= lines);
    assert forall|i: int| 0 <= i < lines.len() implies without_return(lines[i]) == lines[i] by {
        assert(is_line(lines[i]));
    }
    assert(lines.map_values(|line: Seq<char>| without_return(line)) =~= lines);
}

/// Lines that hold more than white space are read back as they are.
pub proof fn law_nonblank_lines_read_back(lines: Seq<Seq<char>>)
    requires
        forall|i: int|
            0 <= i < lines.len() ==> is_line(#[trigger] lines[i]) && !is_blank(lines[i]),
    ensures
        nonblank_lines_of(terminated(lines)) == lines,
{
    law_lines_read_back(lines);
    lemma_filter_keeps_all(lines, |line: Seq<char>| !is_blank(line));
}

/// A blank line more adds nothing to the lines that hold more than white space, and one that is
/// not blank is added, as it is or without the white space around it.
pub proof fn law_blank_lines_are_dropped(less: Seq<char>, more: Seq<char>, line: Seq<char>)
    requires
        lines_of(more) == lines_of(less).push(line),
    ensures
        nonblank_lines_of(more) == (if is_blank(line) {
            nonblank_lines_of(less)
        } else {
            nonblank_lines_of(less).push(line)
        }),
        trimmed_lines_of(more) == (if is_blank(line) {
            trimmed_lines_of(less)
        } else {
            trimmed_lines_of(less).push(trimmed(line))
        }),
{
    let lines = lines_of(less);
    lines.lemma_filter_push(line, |line: Seq<char>| !is_blank(line));
    let cut = |line: Seq<char>| trimmed(line);
    assert(lines.push(line).map_values(cut) =~= lines.map_values(cut).push(trimmed(line)));
    lines.map_values(cut).lemma_filter_push(trimmed(line), |word: Seq<char>| word.len() > 0);
}

/// A text without any line has none that holds more than white space; an empty text has no line.
pub proof fn law_no_lines_in_nothing(text: Seq<char>)
    ensures
        lines_of(Seq::empty()) == Seq::<Seq<char>>::empty(),
        lines_of(text).len() == 0 ==> nonblank_lines_of(text) == Seq::<Seq<char>>::empty()
            && trimmed_lines_of(text) == Seq::<Seq<char>>::empty(),
{
    let none = Seq::<Seq<char>>::empty();
    law_lines_read_back(none);
    reveal(Seq::filter);
    assert(none.map_values(|line: Seq<char>| trimmed(line)) =~= none);
    assert(none.filter(|line: Seq<char>| !is_blank(line)) =~= none);
    assert(none.filter(|word: Seq<char>| word.len() > 0) =~= none);
    if lines_of(text).len() == 0 {
        assert(lines_of(text) =~= none);
    }
}

/// A filter that keeps each item keeps the list.
pub proof fn lemma_filter_keeps_all<A>(items: Seq<A>, keep: spec_fn(A) -> bool)
    requires
        forall|i: int| 0 <= i < items.len() ==> keep(#[trigger] items[i]),
    ensures
        items.filter(keep) == items,
    decreases items.len(),
{
    reveal(Seq::filter);
    if items.len() > 0 {
        let rest = items.drop_last();
        assert forall|i: int| 0 <= i < rest.len() implies keep(#[trigger] rest[i]) by {
            assert(rest[i] == items[i]);
        }
        lemma_filter_keeps_all(rest, keep);
        assert(keep(items[items.len() - 1]));
        assert(rest.push(items.last()) =~= items);
    }
}

/// Text is read line by line: what stands before a line feed is a line, without the one carriage
/// return that it may end with, and the lines of the rest follow. What stands behind the last line
/// feed is a line as it is, unless it is empty.
pub proof fn law_lines_are_read_one_by_one(line: Seq<char>, rest: Seq<char>)
    requires
        !line.contains('\n'),
    ensures
        lines_of(line.push('\n') + rest) == seq![
            if line.len() > 0 && line.last() == '\r' {
                line.drop_last()
            } else {
                line
            },
        ] + lines_of(rest),
        line.len() > 0 ==> lines_of(line) == seq![line],
        line.len() == 0 ==> lines_of(line) == Seq::<Seq<char>>::empty(),
{
    let set = CharSet::Only('\n');
    let cut = |line: Seq<char>| without_return(line);
    let text = line.push('\n') + rest;
    assert forall|i: int| 0 <= i < line.len() implies !set.has(#[trigger] line[i]) by {
        assert(line.contains(line[i]));
    }
    law_pieces_of_two_sides(line, '\n', rest, set);
    law_pieces_of_plain_text(line, set);
    lemma_pieces_len(rest, set);
    let behind = pieces(rest, set);
    let all = pieces(text, set);
    assert(all =~= seq![line] + behind);
    assert(all.last() == behind.last());
    assert(all.drop_last() =~= seq![line] + behind.drop_last());
    assert(all.drop_last().map_values(cut) =~= seq![without_return(line)]
        + behind.drop_last().map_values(cut));
    assert(lines_of(text) =~= seq![without_return(line)] + lines_of(rest));
    assert(seq![line].drop_last().map_values(cut) =~= Seq::<Seq<char>>::empty());
    assert(line.len() > 0 ==> lines_of(line) =~= seq![line]);
}

/// Lines are written one behind the other, each with its line feed.
pub proof fn law_each_line_has_its_line_feed(lines: Seq<Seq<char>>, line: Seq<char>)
    ensures
        terminated(Seq::empty()) == Seq::<char>::empty(),
        terminated(lines.push(line)) == terminated(lines) + line.push('\n'),
{
    assert(lines.push(line).drop_last() =~= lines);
    reveal_strlit("\n");
    assert(terminated(lines.push(line)) =~= terminated(lines) + line.push('\n'));
}

/// Texts are joined in their order, with the separator between each two and at neither end.
pub proof fn law_texts_are_joined_in_order(
    texts: Seq<Seq<char>>,
    text: Seq<char>,
    sep: Seq<char>,
)
    ensures
        joined_with(Seq::empty(), sep) == Seq::<char>::empty(),
        joined_with(seq![text], sep) == text,
        texts.len() > 0 ==> joined_with(texts.push(text), sep) == joined_with(texts, sep) + sep
            + text,
{
    assert(texts.push(text).drop_last() =~= texts);
    assert(seq![text].drop_last() =~= Seq::<Seq<char>>::empty());
    assert(joined_with(seq![text], sep) =~= text);
}

/// A carriage return before a line feed is no part of the line, and the last line needs no line
/// feed.
pub proof fn law_line_ends(lines: Seq<Seq<char>>, last: Seq<char>)
    requires
        forall|i: int| 0 <= i < lines.len() ==> is_line(#[trigger] lines[i]),
        is_line(last),
        last.len() > 0,
    ensures
        lines_of(terminated(lines) + last) == lines.push(last),
        lines_of(terminated(lines.push(last.push('\r')))) == lines.push(last),
{
    let set = CharSet::Only('\n');
    let none = Seq::<char>::empty();
    reveal_strlit("\n");
    lemma_terminated_pieces(lines);
    law_pieces_of_plain_text(last, set);
    let head = terminated(lines);
    assert(pieces(head + last, set) =~= lines.push(last)) by {
        if lines.len() > 0 {
            assert(head.last() == '\n');
            let front = head.drop_last();
            assert(head =~= front.push('\n'));
            law_pieces_of_two_sides(front, '\n', last, set);
            law_pieces_of_two_sides(front, '\n', none, set);
            law_pieces_of_plain_text(none, set);
            assert(front.push('\n') + none =~= head);
            assert(pieces(front, set) + seq![none] =~= lines.push(none));
            let both = pieces(front, set) + seq![none];
            assert(both.drop_last() =~= pieces(front, set));
            assert(lines.push(none).drop_last() =~= lines);
            assert(lines + seq![last] =~= lines.push(last));
        } else {
            assert(head + last =~= last);
            assert(lines.push(last) =~= seq![last]);
        }
    }
    let parts = lines.push(last);
    assert(parts.drop_last() =~= lines);
    assert forall|i: int| 0 <= i < lines.len() implies without_return(lines[i]) == lines[i] by {
        assert(is_line(lines[i]));
    }
    assert(lines.map_values(|line: Seq<char>| without_return(line)) =~= lines);
    let ended = last.push('\r');
    let text = terminated(lines.push(ended));
    assert(lines.push(ended).drop_last() =~= lines);
    assert(text =~= (head + ended).push('\n') + none);
    law_pieces_of_two_sides(head + ended, '\n', none, set);
    law_pieces_of_plain_text(none, set);
    // The carriage return belongs to the piece that the last line is.
    let whole = head + ended;
    assert(whole.drop_last() =~= head + last);
    assert(pieces(whole, set) =~= lines.push(ended));
    let all = lines.push(ended).push(none);
    assert(pieces(text, set) =~= all);
    assert(all.drop_last() =~= lines.push(ended));
    assert(ended.drop_last() =~= last);
    assert(lines.push(ended).map_values(|line: Seq<char>| without_return(line)) =~= lines.push(
        last,
    ));
}

/// The words around a character of the set are the words of both sides.
pub proof fn law_words_of_two_sides(a: Seq<char>, c: char, b: Seq<char>, set: CharSet)
    requires
        set.has(c),
    ensures
        words_of(a.push(c) + b, set) == words_of(a, set) + words_of(b, set),
{
    law_pieces_of_two_sides(a, c, b, set);
    Seq::filter_distributes_over_add(
        pieces(a, set),
        pieces(b, set),
        |word: Seq<char>| word.len() > 0,
    );
}

/// A text without a character of the set is one word, or none where it is empty.
pub proof fn law_words_of_plain_text(s: Seq<char>, set: CharSet)
    requires
        forall|i: int| 0 <= i < s.len() ==> !set.has(#[trigger] s[i]),
    ensures
        words_of(s, set) == (if s.len() > 0 {
            seq![s]
        } else {
            Seq::empty()
        }),
{
    let keep = |word: Seq<char>| word.len() > 0;
    law_pieces_of_plain_text(s, set);
    let none = Seq::<Seq<char>>::empty();
    assert(none.push(s) =~= seq![s]);
    none.lemma_filter_push(s, keep);
    assert(none.filter(keep) =~= none) by {
        reveal(Seq::filter);
    }
}

/// Text without white space at its ends is kept by trimming.
pub proof fn law_trimming_keeps_tight_text(s: Seq<char>)
    requires
        s.len() > 0,
        !is_white(s[0]),
        !is_white(s.last()),
    ensures
        trimmed(s) == s,
{
}

/// What is trimmed has no white space at its ends.
pub proof fn law_trimmed_text_is_tight(s: Seq<char>)
    ensures
        trimmed(s).len() > 0 ==> !is_white(trimmed(s)[0]) && !is_white(trimmed(s).last()),
        trimmed(trimmed(s)) == trimmed(s),
{
    lemma_front(s, CharSet::White);
    lemma_back(without_front(s, CharSet::White), CharSet::White);
}

proof fn lemma_front(s: Seq<char>, set: CharSet)
    ensures
        without_front(s, set).len() > 0 ==> !set.has(without_front(s, set)[0]),
    decreases s.len(),
{
    if s.len() > 0 && set.has(s[0]) {
        lemma_front(s.drop_first(), set);
    }
}

proof fn lemma_back(s: Seq<char>, set: CharSet)
    ensures
        without_back(s, set).is_prefix_of(s),
        without_back(s, set).len() > 0 ==> !set.has(without_back(s, set).last()),
    decreases s.len(),
{
    if s.len() > 0 && set.has(s.last()) {
        lemma_back(s.drop_last(), set);
    }
}

/// What is cut off at the end of a text is cut off its last part, where the part before it does
/// not end with a character of the set.
pub proof fn law_cut_off_the_last_part(a: Seq<char>, b: Seq<char>, set: CharSet)
    requires
        a.len() > 0,
        !set.has(a.last()),
    ensures
        without_back(a + b, set) == a + without_back(b, set),
    decreases b.len(),
{
    let whole = a + b;
    if b.len() == 0 {
        assert(whole =~= a);
        assert(a + without_back(b, set) =~= a);
    } else if set.has(b.last()) {
        assert(whole.drop_last() =~= a + b.drop_last());
        law_cut_off_the_last_part(a, b.drop_last(), set);
    }
}

} // verus!

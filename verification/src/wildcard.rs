//! The `*`-wildcard match.

use vstd::prelude::*;

use crate::outside::{ascii_lower, ascii_lower_char, char_to_lowercase, lower_char};
use crate::text::chars_of;

verus! {

/// `name` matches `pattern`: a `*` stands for any run of characters, any other character for
/// itself.
pub open spec fn wildcard(pattern: Seq<char>, name: Seq<char>) -> bool
    decreases pattern.len(), name.len(),
{
    if pattern.len() == 0 {
        name.len() == 0
    } else if pattern[0] == '*' {
        wildcard(pattern.drop_first(), name) || name.len() > 0 && wildcard(
            pattern,
            name.drop_first(),
        )
    } else {
        name.len() > 0 && pattern[0] == name[0] && wildcard(
            pattern.drop_first(),
            name.drop_first(),
        )
    }
}

/// Whether the pattern from `p` on matches the name from `n` on.
spec fn tail(pattern: Seq<char>, name: Seq<char>, p: int, n: int) -> bool {
    wildcard(pattern.skip(p), name.skip(n))
}

proof fn lemma_tail_star(pattern: Seq<char>, name: Seq<char>, p: int, n: int)
    requires
        0 <= p < pattern.len(),
        0 <= n <= name.len(),
        pattern[p] == '*',
    ensures
        tail(pattern, name, p, n) <==> tail(pattern, name, p + 1, n) || n < name.len() && tail(
            pattern,
            name,
            p,
            n + 1,
        ),
{
    assert(pattern.skip(p).drop_first() =~= pattern.skip(p + 1));
    if n < name.len() {
        assert(name.skip(n).drop_first() =~= name.skip(n + 1));
    }
}

proof fn lemma_tail_char(pattern: Seq<char>, name: Seq<char>, p: int, n: int)
    requires
        0 <= p < pattern.len(),
        0 <= n <= name.len(),
        pattern[p] != '*',
    ensures
        tail(pattern, name, p, n) <==> n < name.len() && pattern[p] == name[n] && tail(
            pattern,
            name,
            p + 1,
            n + 1,
        ),
{
    assert(pattern.skip(p).drop_first() =~= pattern.skip(p + 1));
    if n < name.len() {
        assert(name.skip(n).drop_first() =~= name.skip(n + 1));
    }
}

/// A run of plain characters that the pattern and the name share can be taken off both.
proof fn lemma_tail_run(pattern: Seq<char>, name: Seq<char>, p: int, n: int, len: int)
    requires
        0 <= p,
        0 <= n,
        0 <= len,
        p + len <= pattern.len(),
        n + len <= name.len(),
        forall|k: int| p <= k < p + len ==> #[trigger] pattern[k] != '*',
        forall|k: int| p <= k < p + len ==> #[trigger] pattern[k] == name[k - p + n],
    ensures
        tail(pattern, name, p, n) <==> tail(pattern, name, p + len, n + len),
    decreases len,
{
    if len > 0 {
        lemma_tail_char(pattern, name, p, n);
        assert(pattern[p] == name[n]);
        lemma_tail_run(pattern, name, p + 1, n + 1, len - 1);
    }
}

/// Where the pattern goes on with a run of plain characters, a match of it leaves a match behind
/// that run.
proof fn lemma_tail_run_consumed(pattern: Seq<char>, name: Seq<char>, p: int, n: int, len: int)
    requires
        0 <= p,
        0 <= n <= name.len(),
        0 <= len,
        p + len <= pattern.len(),
        forall|k: int| p <= k < p + len ==> #[trigger] pattern[k] != '*',
        tail(pattern, name, p, n),
    ensures
        n + len <= name.len(),
        tail(pattern, name, p + len, n + len),
    decreases len,
{
    if len > 0 {
        lemma_tail_char(pattern, name, p, n);
        lemma_tail_run_consumed(pattern, name, p + 1, n + 1, len - 1);
    }
}

/// A star may stand for more: what it matches from a later place it matches from an earlier one.
proof fn lemma_star_absorbs(pattern: Seq<char>, name: Seq<char>, p: int, n: int, later: int)
    requires
        0 <= p < pattern.len(),
        0 <= n <= later <= name.len(),
        pattern[p] == '*',
        tail(pattern, name, p, later),
    ensures
        tail(pattern, name, p, n),
    decreases later - n,
{
    if n < later {
        lemma_star_absorbs(pattern, name, p, n + 1, later);
        lemma_tail_star(pattern, name, p, n);
    }
}

/// What a star matches from `n` is a match of the rest of the pattern from some later place.
proof fn lemma_star_witness(pattern: Seq<char>, name: Seq<char>, p: int, n: int) -> (later: int)
    requires
        0 <= p < pattern.len(),
        0 <= n <= name.len(),
        pattern[p] == '*',
        tail(pattern, name, p, n),
    ensures
        n <= later <= name.len(),
        tail(pattern, name, p + 1, later),
    decreases name.len() - n,
{
    lemma_tail_star(pattern, name, p, n);
    if tail(pattern, name, p + 1, n) {
        n
    } else {
        lemma_star_witness(pattern, name, p, n + 1)
    }
}

/// The last star seen decides: with a plain run shared behind it up to a further star, the match
/// from the earlier star is the match from the further one.
proof fn lemma_next_star(pattern: Seq<char>, name: Seq<char>, star: int, star_n: int, p: int, n: int)
    requires
        0 <= star < p < pattern.len(),
        0 <= star_n <= n <= name.len(),
        p - (star + 1) == n - star_n,
        pattern[star] == '*',
        pattern[p] == '*',
        forall|k: int| star + 1 <= k < p ==> #[trigger] pattern[k] != '*',
        forall|k: int| star + 1 <= k < p ==> #[trigger] pattern[k] == name[k - (star + 1) + star_n],
    ensures
        tail(pattern, name, star, star_n) <==> tail(pattern, name, p, n),
{
    let len = p - (star + 1);
    lemma_tail_run(pattern, name, star + 1, star_n, len);
    if tail(pattern, name, p, n) {
        lemma_tail_star(pattern, name, star, star_n);
    }
    if tail(pattern, name, star, star_n) {
        let later = lemma_star_witness(pattern, name, star, star_n);
        lemma_tail_run_consumed(pattern, name, star + 1, later, len);
        lemma_star_absorbs(pattern, name, p, n, later + len);
    }
}

/// A text with each of its characters in lower case. What stands around a character makes no
/// difference to its form.
pub open spec fn lower_each(s: Seq<char>) -> Seq<char>
    decreases s.len(),
{
    if s.len() == 0 {
        Seq::empty()
    } else {
        lower_each(s.drop_last()) + lower_char(s.last())
    }
}

/// A character, where the small sigma that stands at the end of a word is taken as the one that
/// stands elsewhere: both are the small form of one capital.
pub open spec fn folded_char(c: char) -> char {
    if c == '\u{3c2}' {
        '\u{3c3}'
    } else {
        c
    }
}

/// A text with one small sigma.
pub open spec fn folded(s: Seq<char>) -> Seq<char> {
    s.map_values(|c: char| folded_char(c))
}

fn lower_chars(s: &str) -> (lower: String)
    ensures
        lower@ == folded(lower_each(s@)),
        vstd::utf8::is_ascii_chars(s@) ==> lower@ == ascii_lower(s@),
{
    let chars = chars_of(s);
    let mut lower: Vec<char> = Vec::new();
    let mut i: usize = 0;
    while i < chars.len()
        invariant
            i <= chars@.len(),
            chars@ == s@,
            lower@ =~= lower_each(s@.take(i as int)),
            vstd::utf8::is_ascii_chars(s@) ==> lower@ =~= ascii_lower(s@.take(i as int)),
        decreases chars@.len() - i,
    {
        assert(s@.take(i + 1).drop_last() =~= s@.take(i as int));
        let mut one = char_to_lowercase(chars[i]);
        proof {
            if vstd::utf8::is_ascii_chars(s@) {
                assert(one@ =~= seq![ascii_lower_char(s@[i as int])]);
            }
        }
        lower.append(&mut one);
        i = i + 1;
    }
    assert(s@.take(i as int) =~= s@);
    let mut text = String::new();
    let mut k: usize = 0;
    while k < lower.len()
        invariant
            k <= lower@.len(),
            text@ =~= folded(lower@.take(k as int)),
        decreases lower@.len() - k,
    {
        let c = lower[k];
        text.push(
            if c == '\u{3c2}' {
                '\u{3c3}'
            } else {
                c
            },
        );
        k = k + 1;
    }
    assert(lower@.take(k as int) =~= lower@);
    proof {
        if vstd::utf8::is_ascii_chars(s@) {
            assert(folded(ascii_lower(s@)) =~= ascii_lower(s@));
        }
    }
    text
}

/// Case-insensitive `*`-wildcard match (`*` matches any run, anywhere, any number of times).
pub fn wildcard_match(pattern: &str, name: &str) -> (matched: bool)
    ensures
        matched == wildcard(folded(lower_each(pattern@)), folded(lower_each(name@))),
        vstd::utf8::is_ascii_chars(pattern@) && vstd::utf8::is_ascii_chars(name@) ==> matched
            == wildcard(ascii_lower(pattern@), ascii_lower(name@)),
{
    let lower_pattern = lower_chars(pattern);
    let lower_name = lower_chars(name);
    matches_wildcard(lower_pattern.as_str(), lower_name.as_str())
}

/// The `*`-wildcard match, letter case and all.
pub fn matches_wildcard(pattern: &str, name: &str) -> (matched: bool)
    ensures
        matched == wildcard(pattern@, name@),
{
    let pat = chars_of(pattern);
    let text = chars_of(name);
    let mut p: usize = 0;
    let mut n: usize = 0;
    let mut star: Option<usize> = None;
    let mut star_n: usize = 0;
    assert(pat@.skip(0) =~= pat@);
    assert(text@.skip(0) =~= text@);
    while n < text.len()
        invariant
            pat@ == pattern@,
            text@ == name@,
            p <= pat@.len(),
            star_n <= n <= text@.len(),
            match star {
                None => star_n == 0 && wildcard(pat@, text@) == tail(
                    pat@,
                    text@,
                    p as int,
                    n as int,
                ),
                Some(at) => {
                    &&& at < p
                    &&& pat@[at as int] == '*'
                    &&& p - (at + 1) == n - star_n
                    &&& forall|k: int| at + 1 <= k < p ==> #[trigger] pat@[k] != '*'
                    &&& forall|k: int|
                        at + 1 <= k < p ==> #[trigger] pat@[k] == text@[k - (at + 1) + star_n]
                    &&& wildcard(pat@, text@) == tail(pat@, text@, at as int, star_n as int)
                },
            },
        decreases text@.len() - star_n, pat@.len() - p,
    {
        if p < pat.len() && pat[p] == '*' {
            proof {
                if let Some(at) = star {
                    lemma_next_star(
                        pat@,
                        text@,
                        at as int,
                        star_n as int,
                        p as int,
                        n as int,
                    );
                }
            }
            star = Some(p);
            star_n = n;
            p = p + 1;
        } else if p < pat.len() && pat[p] == text[n] {
            proof {
                lemma_tail_char(pat@, text@, p as int, n as int);
            }
            p = p + 1;
            n = n + 1;
        } else if let Some(at) = star {
            proof {
                // The rest of the pattern fails here, so the star stands for one character more.
                lemma_tail_run(pat@, text@, at + 1, star_n as int, p - (at + 1));
                if p < pat@.len() {
                    lemma_tail_char(pat@, text@, p as int, n as int);
                } else {
                    assert(pat@.skip(p as int).len() == 0);
                    assert(text@.skip(n as int).len() > 0);
                }
                lemma_tail_star(pat@, text@, at as int, star_n as int);
            }
            p = at + 1;
            star_n = star_n + 1;
            n = star_n;
        } else {
            proof {
                if p < pat@.len() {
                    lemma_tail_char(pat@, text@, p as int, n as int);
                } else {
                    assert(pat@.skip(p as int).len() == 0);
                    assert(text@.skip(n as int).len() > 0);
                }
            }
            return false;
        }
    }
    proof {
        if let Some(at) = star {
            lemma_tail_run(pat@, text@, at + 1, star_n as int, p - (at + 1));
            if tail(pat@, text@, p as int, n as int) {
                lemma_tail_star(pat@, text@, at as int, star_n as int);
            }
            if tail(pat@, text@, at as int, star_n as int) {
                let later = lemma_star_witness(pat@, text@, at as int, star_n as int);
                lemma_tail_run_consumed(pat@, text@, at + 1, later, p - (at + 1));
            }
        }
    }
    while p < pat.len() && pat[p] == '*'
        invariant
            p <= pat@.len(),
            n == text@.len(),
            wildcard(pat@, text@) == tail(pat@, text@, p as int, n as int),
        decreases pat@.len() - p,
    {
        proof {
            lemma_tail_star(pat@, text@, p as int, n as int);
        }
        p = p + 1;
    }
    proof {
        if p < pat@.len() {
            lemma_tail_char(pat@, text@, p as int, n as int);
        } else {
            assert(pat@.skip(p as int).len() == 0);
            assert(text@.skip(n as int).len() == 0);
        }
    }
    p == pat.len()
}

// ---------------------------------------------------------------------------
// Laws

/// A star stands for any run: where `a` matches `x` and `b` matches `z`, the pattern of `a`, a
/// star and `b` matches `x`, any `y` and `z`.
pub proof fn law_star_stands_for_any_run(
    a: Seq<char>,
    b: Seq<char>,
    x: Seq<char>,
    y: Seq<char>,
    z: Seq<char>,
)
    requires
        wildcard(a, x),
        wildcard(b, z),
    ensures
        wildcard(a + seq!['*'] + b, x + y + z),
    decreases a.len(), x.len(), y.len(),
{
    let pattern = a + seq!['*'] + b;
    let name = x + y + z;
    if a.len() == 0 {
        if y.len() == 0 {
            assert(pattern.drop_first() =~= b);
            assert(name =~= z);
        } else {
            law_star_stands_for_any_run(a, b, x, y.drop_first(), z);
            assert(name.drop_first() =~= x + y.drop_first() + z);
        }
    } else {
        assert(pattern[0] == a[0]);
        assert(pattern.drop_first() =~= a.drop_first() + seq!['*'] + b);
        if a[0] == '*' {
            if wildcard(a.drop_first(), x) {
                law_star_stands_for_any_run(a.drop_first(), b, x, y, z);
            } else {
                law_star_stands_for_any_run(a, b, x.drop_first(), y, z);
                assert(name.drop_first() =~= x.drop_first() + y + z);
            }
        } else {
            law_star_stands_for_any_run(a.drop_first(), b, x.drop_first(), y, z);
            assert(name.drop_first() =~= x.drop_first() + y + z);
            assert(name[0] == x[0]);
        }
    }
}

/// A star stands for nothing but a run: what the pattern of `a`, a star and `b` matches begins
/// with a match of `a` and ends with a match of `b` behind it.
pub proof fn law_star_stands_for_a_run(a: Seq<char>, b: Seq<char>, name: Seq<char>)
    requires
        wildcard(a + seq!['*'] + b, name),
    ensures
        exists|i: int, j: int|
            0 <= i <= j <= name.len() && #[trigger] wildcard(a, name.take(i))
                && #[trigger] wildcard(b, name.skip(j)),
    decreases a.len(), name.len(),
{
    let pattern = a + seq!['*'] + b;
    if a.len() == 0 {
        assert(pattern.drop_first() =~= b);
        if wildcard(b, name) {
            assert(name.skip(0) =~= name);
            assert(wildcard(a, name.take(0)) && wildcard(b, name.skip(0)));
        } else {
            let rest = name.drop_first();
            law_star_stands_for_a_run(a, b, rest);
            let (i, j) = choose|i: int, j: int|
                0 <= i <= j <= rest.len() && #[trigger] wildcard(a, rest.take(i))
                    && #[trigger] wildcard(b, rest.skip(j));
            assert(rest.skip(j) =~= name.skip(j + 1));
            assert(wildcard(a, name.take(0)) && wildcard(b, name.skip(j + 1)));
        }
    } else {
        assert(pattern[0] == a[0]);
        assert(pattern.drop_first() =~= a.drop_first() + seq!['*'] + b);
        if a[0] == '*' && wildcard(pattern.drop_first(), name) {
            law_star_stands_for_a_run(a.drop_first(), b, name);
            let (i, j) = choose|i: int, j: int|
                0 <= i <= j <= name.len() && #[trigger] wildcard(a.drop_first(), name.take(i))
                    && #[trigger] wildcard(b, name.skip(j));
            assert(wildcard(a, name.take(i)) && wildcard(b, name.skip(j)));
        } else {
            let rest = name.drop_first();
            let behind = if a[0] == '*' {
                a
            } else {
                a.drop_first()
            };
            law_star_stands_for_a_run(behind, b, rest);
            let (i, j) = choose|i: int, j: int|
                0 <= i <= j <= rest.len() && #[trigger] wildcard(behind, rest.take(i))
                    && #[trigger] wildcard(b, rest.skip(j));
            assert(name.take(i + 1).drop_first() =~= rest.take(i));
            assert(rest.skip(j) =~= name.skip(j + 1));
            assert(wildcard(a, name.take(i + 1)) && wildcard(b, name.skip(j + 1)));
        }
    }
}

/// A pattern without a star matches itself and nothing else.
pub proof fn law_plain_pattern(pattern: Seq<char>, name: Seq<char>)
    requires
        !pattern.contains('*'),
    ensures
        wildcard(pattern, name) <==> pattern == name,
    decreases pattern.len(),
{
    if pattern.len() > 0 {
        assert(pattern.contains(pattern[0]));
        assert forall|i: int| 0 <= i < pattern.len() - 1 implies pattern.drop_first()[i] != '*' by {
            assert(pattern.contains(pattern[i + 1]));
        }
        if name.len() > 0 {
            law_plain_pattern(pattern.drop_first(), name.drop_first());
            if pattern[0] == name[0] && pattern.drop_first() == name.drop_first() {
                assert(pattern =~= seq![pattern[0]] + pattern.drop_first());
                assert(name =~= seq![name[0]] + name.drop_first());
            }
        }
    } else {
        assert(name.len() == 0 ==> pattern =~= name);
    }
}

/// A pattern of one star matches every name.
pub proof fn law_lone_star(name: Seq<char>)
    ensures
        wildcard(seq!['*'], name),
{
    let none = Seq::<char>::empty();
    law_star_stands_for_any_run(none, none, none, name, none);
    assert(none + seq!['*'] + none =~= seq!['*']);
    assert(none + name + none =~= name);
}

/// Plain text and a star match the names that begin with the text.
pub proof fn law_prefix_pattern(prefix: Seq<char>, name: Seq<char>)
    requires
        !prefix.contains('*'),
    ensures
        wildcard(prefix.push('*'), name) <==> prefix.is_prefix_of(name),
{
    let none = Seq::<char>::empty();
    assert(prefix + seq!['*'] + none =~= prefix.push('*'));
    if wildcard(prefix.push('*'), name) {
        law_star_stands_for_a_run(prefix, none, name);
        let (i, j) = choose|i: int, j: int|
            0 <= i <= j <= name.len() && #[trigger] wildcard(prefix, name.take(i))
                && #[trigger] wildcard(none, name.skip(j));
        law_plain_pattern(prefix, name.take(i));
    }
    if prefix.is_prefix_of(name) {
        law_plain_pattern(prefix, prefix);
        law_star_stands_for_any_run(prefix, none, prefix, name.skip(prefix.len() as int), none);
        assert(prefix + name.skip(prefix.len() as int) + none =~= name);
    }
}

/// A star and plain text match the names that end with the text.
pub proof fn law_suffix_pattern(suffix: Seq<char>, name: Seq<char>)
    requires
        !suffix.contains('*'),
    ensures
        wildcard(seq!['*'] + suffix, name) <==> suffix.is_suffix_of(name),
{
    let none = Seq::<char>::empty();
    assert(none + seq!['*'] + suffix =~= seq!['*'] + suffix);
    if wildcard(seq!['*'] + suffix, name) {
        law_star_stands_for_a_run(none, suffix, name);
        let (i, j) = choose|i: int, j: int|
            0 <= i <= j <= name.len() && #[trigger] wildcard(none, name.take(i))
                && #[trigger] wildcard(suffix, name.skip(j));
        law_plain_pattern(suffix, name.skip(j));
    }
    if suffix.is_suffix_of(name) {
        let before = name.take(name.len() - suffix.len());
        law_plain_pattern(suffix, suffix);
        law_star_stands_for_any_run(none, suffix, none, before, suffix);
        assert(none + before + suffix =~= name);
    }
}

/// The lower-case form of a text is that of its parts, one behind the other.
pub proof fn law_lower_case_of_parts(a: Seq<char>, b: Seq<char>)
    ensures
        lower_each(a + b) == lower_each(a) + lower_each(b),
    decreases b.len(),
{
    let whole = a + b;
    if b.len() == 0 {
        assert(whole =~= a);
        assert(lower_each(a) + lower_each(b) =~= lower_each(a));
    } else {
        law_lower_case_of_parts(a, b.drop_last());
        assert(whole.drop_last() =~= a + b.drop_last());
        assert(lower_each(whole) =~= lower_each(a) + lower_each(b));
    }
}

/// A text matches itself as a pattern, stars and all.
pub proof fn law_pattern_matches_itself(text: Seq<char>)
    ensures
        wildcard(text, text),
    decreases text.len(),
{
    if text.len() > 0 {
        let rest = text.drop_first();
        law_pattern_matches_itself(rest);
        if text[0] == '*' {
            assert(wildcard(text, rest));
        }
    }
}

/// A pattern does not refuse its own letters: in lower case, a text and a star match every name
/// that begins with the text, a star and a text every name that ends with it, whatever its letters
/// are.
pub proof fn law_own_letters_match(text: Seq<char>, rest: Seq<char>)
    ensures
        wildcard(folded(lower_each(text)).push('*'), folded(lower_each(text + rest))),
        wildcard(seq!['*'] + folded(lower_each(text)), folded(lower_each(rest + text))),
        wildcard(folded(lower_each(text)), folded(lower_each(text))),
{
    let own = folded(lower_each(text));
    let other = folded(lower_each(rest));
    let none = Seq::<char>::empty();
    law_pattern_matches_itself(own);
    law_lower_case_of_parts(text, rest);
    law_lower_case_of_parts(rest, text);
    law_star_stands_for_any_run(own, none, own, other, none);
    law_star_stands_for_any_run(none, own, none, other, own);
    assert(own + seq!['*'] + none =~= own.push('*'));
    assert(own + other + none =~= folded(lower_each(text + rest)));
    assert(none + seq!['*'] + own =~= seq!['*'] + own);
    assert(none + other + own =~= folded(lower_each(rest + text)));
}

/// The two small sigmas count as one letter, and no other letters do; lower case is taken letter
/// by letter.
pub proof fn law_only_sigmas_are_folded(s: Seq<char>, c: char)
    ensures
        folded(s).len() == s.len(),
        forall|i: int|
            0 <= i < s.len() ==> #[trigger] folded(s)[i] == (if s[i] == '\u{3c2}' {
                '\u{3c3}'
            } else {
                s[i]
            }),
        lower_each(Seq::empty()) == Seq::<char>::empty(),
        lower_each(seq![c]) == lower_char(c),
{
    assert(seq![c].drop_last() =~= Seq::<char>::empty());
    assert(lower_each(Seq::<char>::empty()) =~= Seq::<char>::empty());
    assert(lower_each(seq![c]) =~= lower_char(c));
}

/// Which small sigma is written does not matter: a pattern that matches a name still matches it
/// where both have one small sigma.
pub proof fn law_folding_keeps_matches(pattern: Seq<char>, name: Seq<char>)
    requires
        wildcard(pattern, name),
    ensures
        wildcard(folded(pattern), folded(name)),
    decreases pattern.len(), name.len(),
{
    let p = folded(pattern);
    let n = folded(name);
    if pattern.len() > 0 {
        assert(p.drop_first() =~= folded(pattern.drop_first()));
        if name.len() > 0 {
            assert(n.drop_first() =~= folded(name.drop_first()));
        }
        if pattern[0] == '*' {
            if wildcard(pattern.drop_first(), name) {
                law_folding_keeps_matches(pattern.drop_first(), name);
            } else {
                law_folding_keeps_matches(pattern, name.drop_first());
            }
        } else {
            law_folding_keeps_matches(pattern.drop_first(), name.drop_first());
            assert(p[0] != '*');
        }
    }
}

/// Two characters are the same, or the same letter of ASCII in either letter case.
pub open spec fn same_letter(a: char, b: char) -> bool {
    ||| a == b
    ||| 'A' <= a <= 'Z' && b as int == a as int + 32
    ||| 'A' <= b <= 'Z' && a as int == b as int + 32
}

/// Two texts differ in letter case alone.
pub open spec fn same_letters(a: Seq<char>, b: Seq<char>) -> bool {
    a.len() == b.len() && forall|i: int| 0 <= i < a.len() ==> #[trigger] same_letter(a[i], b[i])
}

/// Letter case does not matter: names and patterns that differ in the letter case of ASCII alone
/// match alike.
pub proof fn law_letter_case(
    pattern: Seq<char>,
    other_pattern: Seq<char>,
    name: Seq<char>,
    other_name: Seq<char>,
)
    requires
        same_letters(pattern, other_pattern),
        same_letters(name, other_name),
    ensures
        wildcard(ascii_lower(pattern), ascii_lower(name)) == wildcard(
            ascii_lower(other_pattern),
            ascii_lower(other_name),
        ),
{
    lemma_lower_letters(pattern, other_pattern);
    lemma_lower_letters(name, other_name);
}

/// Texts that differ in letter case alone are the same in lower case.
pub proof fn lemma_lower_letters(a: Seq<char>, b: Seq<char>)
    requires
        same_letters(a, b),
    ensures
        ascii_lower(a) == ascii_lower(b),
{
    assert forall|i: int| 0 <= i < a.len() implies ascii_lower(a)[i] == ascii_lower(b)[i] by {
        assert(same_letter(a[i], b[i]));
    }
    assert(ascii_lower(a) =~= ascii_lower(b));
}

} // verus!

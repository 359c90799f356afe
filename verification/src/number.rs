//! Decimal numbers in text: reading and writing them, and filling text up to a width.

use vstd::prelude::*;
use vstd::string::*;

use crate::text::chars_of;

verus! {

// ---------------------------------------------------------------------------
// Reading

/// A decimal digit.
pub open spec fn is_digit(c: char) -> bool {
    '0' <= c <= '9'
}

/// The value of a decimal digit.
pub open spec fn digit_value(c: char) -> nat {
    (c as int - '0' as int) as nat
}

/// The text is one decimal digit or more.
pub open spec fn all_digits(s: Seq<char>) -> bool {
    s.len() > 0 && forall|i: int| 0 <= i < s.len() ==> is_digit(#[trigger] s[i])
}

/// The value of a text of decimal digits.
pub open spec fn digits_value(s: Seq<char>) -> nat
    decreases s.len(),
{
    if s.len() == 0 {
        0
    } else {
        digits_value(s.drop_last()) * 10 + digit_value(s.last())
    }
}

/// The text without the plus sign that it may begin with.
pub open spec fn unsigned_digits(s: Seq<char>) -> Seq<char> {
    if s.len() > 0 && s[0] == '+' {
        s.skip(1)
    } else {
        s
    }
}

/// The number that `s` writes, up to `max`: decimal digits behind an optional plus sign.
pub open spec fn unsigned_of(s: Seq<char>, max: nat) -> Option<nat> {
    let digits = unsigned_digits(s);
    if all_digits(digits) && digits_value(digits) <= max {
        Some(digits_value(digits))
    } else {
        None
    }
}

/// The `u32` that `s` writes.
pub open spec fn u32_of(s: Seq<char>) -> Option<u32> {
    match unsigned_of(s, u32::MAX as nat) {
        Some(n) => Some(n as u32),
        None => None,
    }
}

/// The `u8` that `s` writes.
pub open spec fn u8_of(s: Seq<char>) -> Option<u8> {
    match unsigned_of(s, u8::MAX as nat) {
        Some(n) => Some(n as u8),
        None => None,
    }
}

/// The `i64` that `s` writes: decimal digits behind an optional sign.
pub open spec fn i64_of(s: Seq<char>) -> Option<i64> {
    if s.len() > 0 && s[0] == '-' {
        let digits = s.skip(1);
        if all_digits(digits) && -digits_value(digits) >= i64::MIN {
            Some((-digits_value(digits)) as i64)
        } else {
            None
        }
    } else {
        match unsigned_of(s, i64::MAX as nat) {
            Some(n) => Some(n as i64),
            None => None,
        }
    }
}

proof fn lemma_digits_value_grows(s: Seq<char>, i: int)
    requires
        0 <= i <= s.len(),
    ensures
        digits_value(s.take(i)) <= digits_value(s),
    decreases s.len(),
{
    if i < s.len() {
        lemma_digits_value_grows(s.drop_last(), i);
        assert(s.drop_last().take(i) =~= s.take(i));
    } else {
        assert(s.take(i) =~= s);
    }
}

/// The value of the digits of `chars` from `from` on, up to `max`.
fn parse_digits(chars: &Vec<char>, from: usize, max: u64) -> (value: Option<u64>)
    requires
        from <= chars@.len(),
        max <= 0x8000_0000_0000_0000,
    ensures
        match value {
            Some(v) => all_digits(chars@.skip(from as int)) && digits_value(
                chars@.skip(from as int),
            ) == v && v <= max,
            None => !(all_digits(chars@.skip(from as int)) && digits_value(
                chars@.skip(from as int),
            ) <= max),
        },
{
    let ghost digits = chars@.skip(from as int);
    if from == chars.len() {
        return None;
    }
    let mut value: u64 = 0;
    let mut i: usize = from;
    assert(digits.take(0) =~= Seq::<char>::empty());
    while i < chars.len()
        invariant
            from <= i <= chars@.len(),
            digits == chars@.skip(from as int),
            max <= 0x8000_0000_0000_0000,
            value <= max,
            value == digits_value(digits.take(i - from)),
            forall|j: int| 0 <= j < i - from ==> is_digit(#[trigger] digits[j]),
        decreases chars@.len() - i,
    {
        let c = chars[i];
        assert(digits[i - from] == c);
        if !('0' <= c && c <= '9') {
            assert(!is_digit(digits[i - from]));
            return None;
        }
        let digit: u64 = c as u64 - '0' as u64;
        proof {
            assert(digits.take(i + 1 - from).drop_last() =~= digits.take(i - from));
            lemma_digits_value_grows(digits, i + 1 - from);
        }
        if value > max / 10 {
            return None;
        }
        let next: u64 = value * 10 + digit;
        if next > max {
            return None;
        }
        value = next;
        i = i + 1;
    }
    assert(digits.take(i - from) =~= digits);
    Some(value)
}

fn parse_unsigned(s: &str, max: u64) -> (value: Option<u64>)
    requires
        max <= 0x8000_0000_0000_0000,
    ensures
        match value {
            Some(v) => unsigned_of(s@, max as nat) == Some(v as nat) && v <= max,
            None => unsigned_of(s@, max as nat) is None,
        },
{
    let chars = chars_of(s);
    if chars.len() > 0 && chars[0] == '+' {
        parse_digits(&chars, 1, max)
    } else {
        assert(chars@.skip(0) =~= chars@);
        parse_digits(&chars, 0, max)
    }
}

/// The `u32` that `s` writes.
pub fn parse_u32(s: &str) -> (value: Option<u32>)
    ensures
        value == u32_of(s@),
{
    match parse_unsigned(s, u32::MAX as u64) {
        Some(v) => Some(v as u32),
        None => None,
    }
}

/// The `u8` that `s` writes.
pub fn parse_u8(s: &str) -> (value: Option<u8>)
    ensures
        value == u8_of(s@),
{
    match parse_unsigned(s, u8::MAX as u64) {
        Some(v) => Some(v as u8),
        None => None,
    }
}

/// The `i64` that `s` writes.
pub fn parse_i64(s: &str) -> (value: Option<i64>)
    ensures
        value == i64_of(s@),
{
    let chars = chars_of(s);
    if chars.len() > 0 && chars[0] == '-' {
        match parse_digits(&chars, 1, 0x8000_0000_0000_0000) {
            Some(v) => {
                if v == 0x8000_0000_0000_0000 {
                    Some(i64::MIN)
                } else {
                    Some(-(v as i64))
                }
            },
            None => None,
        }
    } else {
        match parse_unsigned(s, i64::MAX as u64) {
            Some(v) => Some(v as i64),
            None => None,
        }
    }
}

// ---------------------------------------------------------------------------
// Writing

/// The decimal digit of `d`.
pub open spec fn digit_char(d: nat) -> char {
    ('0' as int + d) as char
}

/// The decimal digits of `n`.
pub open spec fn decimal(n: nat) -> Seq<char>
    decreases n,
{
    if n < 10 {
        seq![digit_char(n)]
    } else {
        decimal(n / 10).push(digit_char(n % 10))
    }
}

/// The decimal digits of `n`, behind a minus sign where it is negative.
pub open spec fn signed_decimal(n: int) -> Seq<char> {
    if n < 0 {
        seq!['-'] + decimal((-n) as nat)
    } else {
        decimal(n as nat)
    }
}

fn digit(d: u8) -> (c: char)
    requires
        d < 10,
    ensures
        c == digit_char(d as nat),
{
    (48u8 + d) as char
}

/// The decimal digits of `n`.
pub fn decimal_text(n: u64) -> (s: String)
    ensures
        s@ == decimal(n as nat),
    decreases n,
{
    if n < 10 {
        let mut s = String::new();
        s.push(digit(n as u8));
        assert(s@ =~= seq![digit_char(n as nat)]);
        s
    } else {
        let mut s = decimal_text(n / 10);
        s.push(digit((n % 10) as u8));
        s
    }
}

/// `n` copies of `c`.
pub open spec fn repeated(c: char, n: nat) -> Seq<char> {
    Seq::new(n, |i: int| c)
}

/// `n` copies of `c`.
pub fn repeat_char(c: char, n: usize) -> (s: String)
    ensures
        s@ == repeated(c, n as nat),
{
    let mut s = String::new();
    let mut i: usize = 0;
    while i < n
        invariant
            i <= n,
            s@ =~= repeated(c, i as nat),
        decreases n - i,
    {
        s.push(c);
        i = i + 1;
    }
    s
}

/// The spaces that `s` lacks to be `width` characters long.
pub open spec fn filling(s: Seq<char>, width: nat) -> Seq<char> {
    repeated(
        ' ',
        if s.len() < width {
            (width - s.len()) as nat
        } else {
            0
        },
    )
}

/// `s`, filled up with spaces behind it to `width` characters.
pub open spec fn left_aligned(s: Seq<char>, width: nat) -> Seq<char> {
    s + filling(s, width)
}

/// `s`, filled up with spaces before it to `width` characters.
pub open spec fn right_aligned(s: Seq<char>, width: nat) -> Seq<char> {
    filling(s, width) + s
}

fn fill(s: &str, width: usize) -> (spaces: String)
    ensures
        spaces@ == filling(s@, width as nat),
{
    let len: usize = chars_of(s).len();
    if len < width {
        repeat_char(' ', width - len)
    } else {
        repeat_char(' ', 0)
    }
}

/// `s`, filled up with spaces behind it to `width` characters.
pub fn align_left(s: &str, width: usize) -> (filled: String)
    ensures
        filled@ == left_aligned(s@, width as nat),
{
    let spaces = fill(s, width);
    s.to_string().concat(spaces.as_str())
}

/// `s`, filled up with spaces before it to `width` characters.
pub fn align_right(s: &str, width: usize) -> (filled: String)
    ensures
        filled@ == right_aligned(s@, width as nat),
{
    let spaces = fill(s, width);
    spaces.concat(s)
}

// ---------------------------------------------------------------------------
// Laws

/// The decimal digits of a number are digits, and their value is the number.
pub proof fn law_decimal_reads_back(n: nat)
    ensures
        all_digits(decimal(n)),
        digits_value(decimal(n)) == n,
    decreases n,
{
    let text = decimal(n);
    if n < 10 {
        assert(text.drop_last() =~= Seq::empty());
        assert(digits_value(text.drop_last()) == 0);
    } else {
        law_decimal_reads_back(n / 10);
        assert(text.drop_last() =~= decimal(n / 10));
    }
}

/// A number is written without zeros before it, and the value of digits grows tenfold with each
/// digit behind them.
pub proof fn law_numbers_begin_with_no_zero(n: nat, digits: Seq<char>, last: char)
    requires
        is_digit(last),
    ensures
        n > 0 ==> decimal(n)[0] != '0',
        decimal(0) == seq!['0'],
        digits_value(Seq::empty()) == 0,
        digits_value(digits.push(last)) == 10 * digits_value(digits) + (last as int - '0' as int),
    decreases n,
{
    assert(digits.push(last).drop_last() =~= digits);
    if n >= 10 {
        law_numbers_begin_with_no_zero(n / 10, digits, last);
        law_decimal_reads_back(n / 10);
    }
}

/// Reading a number undoes writing it.
pub proof fn law_numbers_read_back(small: u8, medium: u32, large: i64)
    ensures
        u8_of(decimal(small as nat)) == Some(small),
        u32_of(decimal(medium as nat)) == Some(medium),
        i64_of(signed_decimal(large as int)) == Some(large),
{
    law_decimal_reads_back(small as nat);
    law_decimal_reads_back(medium as nat);
    assert(is_digit(decimal(small as nat)[0]));
    assert(is_digit(decimal(medium as nat)[0]));
    if large < 0 {
        let digits = decimal((-large) as nat);
        law_decimal_reads_back((-large) as nat);
        assert(signed_decimal(large as int).skip(1) =~= digits);
    } else {
        law_decimal_reads_back(large as nat);
        assert(is_digit(decimal(large as nat)[0]));
    }
}

/// A number is read exactly off decimal digits, behind a plus sign or without one, whose value
/// fits: any other character, an empty text, a sign alone and a value that is too large make it
/// none.
pub proof fn law_only_digits_are_a_number(digits: Seq<char>, s: Seq<char>)
    requires
        all_digits(digits),
    ensures
        u8_of(digits) == (if digits_value(digits) <= 255 {
            Some(digits_value(digits) as u8)
        } else {
            None
        }),
        u32_of(digits) == (if digits_value(digits) <= 0xffff_ffff {
            Some(digits_value(digits) as u32)
        } else {
            None
        }),
        i64_of(digits) == (if digits_value(digits) <= 0x7fff_ffff_ffff_ffff {
            Some(digits_value(digits) as i64)
        } else {
            None
        }),
        u8_of(seq!['+'] + digits) == u8_of(digits),
        u32_of(seq!['+'] + digits) == u32_of(digits),
        i64_of(seq!['+'] + digits) == i64_of(digits),
        i64_of(seq!['-'] + digits) == (if digits_value(digits) <= 0x8000_0000_0000_0000 {
            Some((-digits_value(digits)) as i64)
        } else {
            None
        }),
        !all_digits(s) && !(s.len() > 0 && s[0] == '+' && all_digits(s.skip(1))) ==> u8_of(s) is None
            && u32_of(s) is None,
        !all_digits(s) && !(s.len() > 0 && (s[0] == '+' || s[0] == '-') && all_digits(s.skip(1)))
            ==> i64_of(s) is None,
{
    assert(is_digit(digits[0]));
    assert((seq!['+'] + digits).skip(1) =~= digits);
    assert((seq!['-'] + digits).skip(1) =~= digits);
}

/// What text is filled up with is spaces, and the text itself stays at its end of the line.
pub proof fn law_text_is_filled_with_spaces(s: Seq<char>, width: nat)
    ensures
        forall|i: int|
            s.len() <= i < left_aligned(s, width).len() ==> #[trigger] left_aligned(s, width)[i]
                == ' ',
        forall|i: int|
            0 <= i < right_aligned(s, width).len() - s.len() ==> #[trigger] right_aligned(
                s,
                width,
            )[i] == ' ',
        forall|i: int| 0 <= i < s.len() ==> #[trigger] left_aligned(s, width)[i] == s[i],
{
}

/// Text that is filled up has the width that is asked for, or is as long as it was.
pub proof fn law_filled_text_width(s: Seq<char>, width: nat)
    ensures
        left_aligned(s, width).len() == right_aligned(s, width).len(),
        left_aligned(s, width).len() == (if s.len() < width {
            width
        } else {
            s.len()
        }),
        s.is_prefix_of(left_aligned(s, width)),
        s.is_suffix_of(right_aligned(s, width)),
{
    assert(left_aligned(s, width).take(s.len() as int) =~= s);
    let right = right_aligned(s, width);
    assert(right.skip(right.len() - s.len()) =~= s);
}

} // verus!

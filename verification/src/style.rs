//! Styled text: colors and attributes, the escape codes that set them, and cutting text to a
//! width.

use vstd::prelude::*;
use vstd::string::*;

use crate::number::{parse_u8, u8_of};
use crate::outside::{char_width, is_printable, text_width, width_of, width_of_char};
use crate::text::{chars_of, pieces, split, string_of, trim, trimmed, CharSet};

verus! {

/// A color of the terminal.
#[derive(Debug, Clone, Copy, PartialEq, Eq, Structural)]
pub enum Color {
    Black,
    Red,
    Green,
    Yellow,
    Blue,
    Magenta,
    Cyan,
    Gray,
    DarkGray,
    LightRed,
    LightGreen,
    LightYellow,
    LightBlue,
    LightMagenta,
    LightCyan,
    White,
}

/// How text is shown.
#[derive(Debug, Clone, Copy, PartialEq, Eq, Structural)]
pub struct TextStyle {
    pub fg: Option<Color>,
    pub bg: Option<Color>,
    pub bold: bool,
    pub dim: bool,
    pub underlined: bool,
    pub reversed: bool,
}

/// Text as the terminal shows it by itself.
pub open spec fn plain_style() -> TextStyle {
    TextStyle {
        fg: None,
        bg: None,
        bold: false,
        dim: false,
        underlined: false,
        reversed: false,
    }
}

/// Text in a color.
pub open spec fn colored(color: Color) -> TextStyle {
    TextStyle { fg: Some(color), ..plain_style() }
}

impl Default for TextStyle {
    fn default() -> (style: Self)
        ensures
            style == plain_style(),
    {
        TextStyle {
            fg: None,
            bg: None,
            bold: false,
            dim: false,
            underlined: false,
            reversed: false,
        }
    }
}

/// Text in a color.
pub fn in_color(color: Color) -> (style: TextStyle)
    ensures
        style == colored(color),
{
    TextStyle { fg: Some(color), ..TextStyle::default() }
}

/// A run of text in one style.
#[derive(Debug, PartialEq, Eq)]
pub struct StyledText {
    pub text: String,
    pub style: TextStyle,
}

impl DeepView for StyledText {
    type V = (Seq<char>, TextStyle);

    open spec fn deep_view(&self) -> (Seq<char>, TextStyle) {
        (self.text@, self.style)
    }
}

/// A run of text in one style.
pub fn styled(text: &str, style: TextStyle) -> (run: StyledText)
    ensures
        run.deep_view() == (text@, style),
{
    StyledText { text: text.to_string(), style }
}

// ---------------------------------------------------------------------------
// Escape codes

/// What a code of an SGR sequence makes of a style; none where the code is not known.
pub open spec fn sgr_code(style: TextStyle, code: u8) -> Option<TextStyle> {
    if code == 0 {
        Some(plain_style())
    } else if code == 1 {
        Some(TextStyle { bold: true, ..style })
    } else if code == 2 {
        Some(TextStyle { dim: true, ..style })
    } else if code == 4 {
        Some(TextStyle { underlined: true, ..style })
    } else if code == 7 {
        Some(TextStyle { reversed: true, ..style })
    } else {
        match sgr_color(code) {
            Some(color) => Some(TextStyle { fg: Some(color), ..style }),
            None => None,
        }
    }
}

/// The color that a code of an SGR sequence names.
pub open spec fn sgr_color(code: u8) -> Option<Color> {
    if code == 30 {
        Some(Color::Black)
    } else if code == 31 {
        Some(Color::Red)
    } else if code == 32 {
        Some(Color::Green)
    } else if code == 33 {
        Some(Color::Yellow)
    } else if code == 34 {
        Some(Color::Blue)
    } else if code == 35 {
        Some(Color::Magenta)
    } else if code == 36 {
        Some(Color::Cyan)
    } else if code == 37 {
        Some(Color::White)
    } else if code == 90 {
        Some(Color::DarkGray)
    } else if code == 91 {
        Some(Color::LightRed)
    } else if code == 92 {
        Some(Color::LightGreen)
    } else if code == 93 {
        Some(Color::LightYellow)
    } else if code == 94 {
        Some(Color::LightBlue)
    } else if code == 95 {
        Some(Color::LightMagenta)
    } else if code == 96 {
        Some(Color::LightCyan)
    } else if code == 97 {
        Some(Color::Gray)
    } else {
        None
    }
}

/// The code that a part of an SGR sequence writes; 0 where it writes none.
pub open spec fn code_value(part: Seq<char>) -> u8 {
    match u8_of(trimmed(part)) {
        Some(code) => code,
        None => 0,
    }
}

/// What the codes of an SGR sequence make of a style: the first one that is known counts.
pub open spec fn sgr_codes(style: TextStyle, codes: Seq<Seq<char>>) -> TextStyle
    decreases codes.len(),
{
    if codes.len() == 0 {
        style
    } else {
        match sgr_code(style, code_value(codes[0])) {
            Some(changed) => changed,
            None => sgr_codes(style, codes.drop_first()),
        }
    }
}

/// What an SGR sequence makes of a style.
pub open spec fn sgr_applied(style: TextStyle, codes: Seq<char>) -> TextStyle {
    sgr_codes(style, pieces(codes, CharSet::Only(';')))
}

fn color_of(code: u8) -> (color: Option<Color>)
    ensures
        color == sgr_color(code),
{
    match code {
        30 => Some(Color::Black),
        31 => Some(Color::Red),
        32 => Some(Color::Green),
        33 => Some(Color::Yellow),
        34 => Some(Color::Blue),
        35 => Some(Color::Magenta),
        36 => Some(Color::Cyan),
        37 => Some(Color::White),
        90 => Some(Color::DarkGray),
        91 => Some(Color::LightRed),
        92 => Some(Color::LightGreen),
        93 => Some(Color::LightYellow),
        94 => Some(Color::LightBlue),
        95 => Some(Color::LightMagenta),
        96 => Some(Color::LightCyan),
        97 => Some(Color::Gray),
        _ => None,
    }
}

/// What an SGR sequence makes of a style; `codes` stands between `ESC [` and `m`.
pub fn apply_sgr(style: TextStyle, codes: &str) -> (changed: TextStyle)
    ensures
        changed == sgr_applied(style, codes@),
{
    let parts = split(codes, &CharSet::Only(';'));
    let ghost all = parts.deep_view();
    let mut i: usize = 0;
    assert(all.skip(0) =~= all);
    while i < parts.len()
        invariant
            i <= parts@.len(),
            all == parts.deep_view(),
            sgr_codes(style, all) == sgr_codes(style, all.skip(i as int)),
            all == pieces(codes@, CharSet::Only(';')),
        decreases parts@.len() - i,
    {
        proof {
            assert(all[i as int] == parts@[i as int]@);
            assert(all.skip(i as int).drop_first() =~= all.skip(i + 1));
        }
        let code: u8 = match parse_u8(trim(parts[i].as_str()).as_str()) {
            Some(code) => code,
            None => 0,
        };
        match code {
            0 => {
                return TextStyle::default();
            },
            1 => {
                return TextStyle { bold: true, ..style };
            },
            2 => {
                return TextStyle { dim: true, ..style };
            },
            4 => {
                return TextStyle { underlined: true, ..style };
            },
            7 => {
                return TextStyle { reversed: true, ..style };
            },
            _ => {
                if let Some(color) = color_of(code) {
                    return TextStyle { fg: Some(color), ..style };
                }
            },
        }
        i = i + 1;
    }
    style
}

/// The character that begins an escape sequence.
pub const ESCAPE: char = '\u{1b}';

/// Where the sequence that begins behind `from` ends: at the next `m`, or with the line.
pub open spec fn sequence_end(line: Seq<char>, from: int) -> int
    decreases line.len() - from,
{
    if from < line.len() && line[from] != 'm' {
        sequence_end(line, from + 1)
    } else {
        from
    }
}

/// A run of text, where there is any.
pub open spec fn run_of(text: Seq<char>, style: TextStyle) -> Seq<(Seq<char>, TextStyle)> {
    if text.len() == 0 {
        Seq::empty()
    } else {
        seq![(text, style)]
    }
}

/// An SGR sequence begins at `at`.
pub open spec fn escape_at(line: Seq<char>, at: int) -> bool {
    0 <= at && at + 1 < line.len() && line[at] == ESCAPE && line[at + 1] == '['
}

proof fn lemma_sequence_end(line: Seq<char>, from: int)
    requires
        0 <= from <= line.len(),
    ensures
        from <= sequence_end(line, from) <= line.len(),
    decreases line.len() - from,
{
    if from < line.len() && line[from] != 'm' {
        lemma_sequence_end(line, from + 1);
    }
}

/// The runs of a line from `at` on, with the text and the style of the run that is open.
pub open spec fn runs_from(
    line: Seq<char>,
    at: int,
    text: Seq<char>,
    style: TextStyle,
) -> Seq<(Seq<char>, TextStyle)>
    decreases line.len() - at,
    when 0 <= at <= line.len()
    via runs_from_decreases
{
    if at >= line.len() {
        run_of(text, style)
    } else if escape_at(line, at) {
        let end = sequence_end(line, at + 2);
        run_of(text, style) + if end < line.len() {
            runs_from(
                line,
                end + 1,
                Seq::empty(),
                sgr_applied(style, line.subrange(at + 2, end)),
            )
        } else {
            Seq::empty()
        }
    } else {
        runs_from(line, at + 1, text.push(line[at]), style)
    }
}

#[via_fn]
proof fn runs_from_decreases(line: Seq<char>, at: int, text: Seq<char>, style: TextStyle) {
    if escape_at(line, at) {
        lemma_sequence_end(line, at + 2);
    }
}

/// The runs of a line that may hold SGR sequences.
pub open spec fn line_runs(line: Seq<char>) -> Seq<(Seq<char>, TextStyle)> {
    runs_from(line, 0, Seq::empty(), plain_style())
}

fn close_run(runs: &mut Vec<StyledText>, text: String, style: TextStyle)
    ensures
        final(runs).deep_view() == old(runs).deep_view() + run_of(text@, style),
{
    if !text.as_str().is_empty() {
        let run = StyledText { text, style };
        let ghost one = run.deep_view();
        runs.push(run);
        assert(runs.deep_view() =~= old(runs).deep_view().push(one));
    }
    assert(runs.deep_view() =~= old(runs).deep_view() + run_of(text@, style));
}

/// The runs of a line that may contain ANSI escape codes: a simple parser for the common SGR
/// codes git produces.
pub fn ansi_line(line: &str) -> (runs: Vec<StyledText>)
    ensures
        runs.deep_view() == line_runs(line@),
{
    let chars = chars_of(line);
    let total: usize = chars.len();
    let mut runs: Vec<StyledText> = Vec::new();
    let mut style = TextStyle::default();
    let mut text = String::new();
    let mut at: usize = 0;
    assert(runs.deep_view() =~= Seq::empty());
    assert(text@ =~= Seq::empty());
    while at < total
        invariant
            at <= total,
            total == chars@.len(),
            chars@ == line@,
            line_runs(line@) =~= runs.deep_view() + runs_from(line@, at as int, text@, style),
        decreases total - at,
    {
        if chars[at] == ESCAPE && total - at > 1 && chars[at + 1] == '[' {
            proof {
                lemma_sequence_end(line@, at + 2);
            }
            close_run(&mut runs, text, style);
            text = String::new();
            assert(text@ =~= Seq::empty());
            let from: usize = at + 2;
            let mut end: usize = from;
            while end < total && chars[end] != 'm'
                invariant
                    from <= end <= total,
                    total == chars@.len(),
                    chars@ == line@,
                    sequence_end(line@, from as int) == sequence_end(line@, end as int),
                decreases total - end,
            {
                end = end + 1;
            }
            if end < total {
                let codes = string_of(&chars, from, end);
                style = apply_sgr(style, codes.as_str());
                at = end + 1;
            } else {
                at = end;
            }
        } else {
            text.push(chars[at]);
            at = at + 1;
        }
    }
    close_run(&mut runs, text, style);
    runs
}

// ---------------------------------------------------------------------------
// Cutting to a width

/// How many characters fit before the sign that stands for the rest, with `used` columns taken.
pub open spec fn fitting(widths: Seq<usize>, used: int, max_width: int) -> nat
    decreases widths.len(),
{
    if widths.len() == 0 || used + widths[0] + 1 > max_width {
        0
    } else {
        1 + fitting(widths.drop_first(), used + widths[0], max_width)
    }
}

/// A text that is cut: the characters that fit, and a sign for the rest, where there is any.
pub open spec fn cut_text(text: Seq<char>, widths: Seq<usize>, max_width: int) -> Seq<char> {
    let kept = fitting(widths, 0, max_width);
    if kept < widths.len() {
        text.take(kept as int).push('…')
    } else {
        text
    }
}

/// The columns of each character; one for a control character.
pub open spec fn columns_of(text: Seq<char>) -> Seq<usize> {
    text.map_values(
        |c: char|
            match char_width(c) {
                Some(width) => width,
                None => 1usize,
            },
    )
}

/// A text in at most `max_width` columns.
pub open spec fn narrowed(text: Seq<char>, max_width: usize) -> Seq<char> {
    if text_width(text) <= max_width {
        text
    } else {
        cut_text(text, columns_of(text), max_width as int)
    }
}

/// The text that is cut to `max_width` columns, by the columns of each of its characters.
pub fn cut_to_width(text: &str, widths: &Vec<usize>, max_width: usize) -> (cut: String)
    requires
        widths@.len() == text@.len(),
    ensures
        cut@ == cut_text(text@, widths@, max_width as int),
{
    let chars = chars_of(text);
    let mut used: usize = 0;
    let mut i: usize = 0;
    assert(widths@.skip(0) =~= widths@);
    while i < chars.len()
        invariant
            i <= chars@.len(),
            chars@ == text@,
            widths@.len() == chars@.len(),
            used <= max_width,
            fitting(widths@, 0, max_width as int) == i + fitting(
                widths@.skip(i as int),
                used as int,
                max_width as int,
            ),
        decreases chars@.len() - i,
    {
        assert(widths@.skip(i as int).drop_first() =~= widths@.skip(i + 1));
        if widths[i] >= max_width - used {
            let mut cut = string_of(&chars, 0, i);
            cut.push('…');
            assert(cut@ =~= text@.take(i as int).push('…'));
            return cut;
        }
        used = used + widths[i];
        i = i + 1;
    }
    text.to_string()
}

/// The text is printable ASCII.
pub open spec fn all_printable(text: Seq<char>) -> bool {
    forall|i: int| 0 <= i < text.len() ==> is_printable(#[trigger] text[i])
}

/// A text of printable ASCII in at most `max_width` columns.
pub open spec fn narrowed_ascii(text: Seq<char>, max_width: int) -> Seq<char> {
    if text.len() <= max_width {
        text
    } else {
        text.take(max_width - 1).push('…')
    }
}

proof fn lemma_fitting_single(widths: Seq<usize>, used: int, max_width: int)
    requires
        used + 1 <= max_width,
        forall|i: int| 0 <= i < widths.len() ==> #[trigger] widths[i] == 1,
        used + widths.len() > max_width - 1,
    ensures
        fitting(widths, used, max_width) == max_width - 1 - used,
    decreases widths.len(),
{
    if used + 2 <= max_width {
        assert(widths[0] == 1);
        lemma_fitting_single(widths.drop_first(), used + 1, max_width);
    } else {
        assert(widths[0] == 1);
    }
}

/// The text in at most `max_width` columns: what does not fit is cut, and a sign stands for it.
pub fn truncate_str(text: &str, max_width: usize) -> (cut: String)
    ensures
        cut@ == narrowed(text@, max_width),
        all_printable(text@) && max_width > 0 ==> cut@ == narrowed_ascii(text@, max_width as int),
{
    if width_of(text) <= max_width {
        return text.to_string();
    }
    let chars = chars_of(text);
    let mut widths: Vec<usize> = Vec::new();
    let mut i: usize = 0;
    while i < chars.len()
        invariant
            i <= chars@.len(),
            chars@ == text@,
            widths@ =~= columns_of(text@.take(i as int)),
            all_printable(text@) ==> forall|j: int| 0 <= j < i ==> #[trigger] widths@[j] == 1,
        decreases chars@.len() - i,
    {
        let width: usize = match width_of_char(chars[i]) {
            Some(width) => width,
            None => 1,
        };
        widths.push(width);
        i = i + 1;
    }
    assert(text@.take(i as int) =~= text@);
    proof {
        if all_printable(text@) && max_width > 0 {
            lemma_fitting_single(widths@, 0, max_width as int);
        }
    }
    cut_to_width(text, &widths, max_width)
}

// ---------------------------------------------------------------------------
// Laws

/// The columns of some characters together.
pub open spec fn total_columns(widths: Seq<usize>) -> int
    decreases widths.len(),
{
    if widths.len() == 0 {
        0
    } else {
        widths[0] + total_columns(widths.drop_first())
    }
}

proof fn lemma_fitting(widths: Seq<usize>, used: int, max_width: int)
    requires
        used + 1 <= max_width,
    ensures
        fitting(widths, used, max_width) <= widths.len(),
        used + total_columns(widths.take(fitting(widths, used, max_width) as int)) + 1 <= max_width,
    decreases widths.len(),
{
    let kept = fitting(widths, used, max_width);
    if widths.len() == 0 || used + widths[0] + 1 > max_width {
        assert(widths.take(0) =~= Seq::empty());
    } else {
        lemma_fitting(widths.drop_first(), used + widths[0], max_width);
        assert(widths.take(kept as int).drop_first() =~= widths.drop_first().take(kept - 1));
    }
}

/// A text that is cut keeps a beginning of the text, and the columns of that beginning leave one
/// for the sign that stands for the rest.
pub proof fn law_cut_text_fits(text: Seq<char>, widths: Seq<usize>, max_width: int)
    requires
        widths.len() == text.len(),
        max_width >= 1,
    ensures
        ({
            let kept = fitting(widths, 0, max_width) as int;
            &&& kept <= text.len()
            &&& total_columns(widths.take(kept)) + 1 <= max_width
            &&& kept < text.len() ==> cut_text(text, widths, max_width) == text.take(kept) + seq!['…']
            &&& kept == text.len() ==> cut_text(text, widths, max_width) == text
        }),
{
    lemma_fitting(widths, 0, max_width);
}

proof fn lemma_plain_runs(line: Seq<char>, at: int)
    requires
        0 <= at <= line.len(),
        forall|i: int| 0 <= i < line.len() ==> !escape_at(line, i),
    ensures
        runs_from(line, at, line.take(at), plain_style()) == run_of(line, plain_style()),
    decreases line.len() - at,
{
    if at < line.len() {
        lemma_plain_runs(line, at + 1);
        assert(!escape_at(line, at));
        assert(line.take(at + 1) =~= line.take(at).push(line[at]));
    } else {
        assert(line.take(at) =~= line);
    }
}

/// A plain style has nothing set, and a colored one the color alone.
pub proof fn law_plain_style_has_nothing_set(color: Color)
    ensures
        ({
            let plain = plain_style();
            let tinted = colored(color);
            &&& plain.fg is None && plain.bg is None
            &&& !plain.bold && !plain.dim && !plain.underlined && !plain.reversed
            &&& tinted.fg == Some(color) && tinted.bg is None
            &&& !tinted.bold && !tinted.dim && !tinted.underlined && !tinted.reversed
        }),
{
}

/// Each code has its effect and no other: 0 clears the style, four codes set an attribute, and
/// sixteen the color of the text. Any other code has none.
pub proof fn law_each_code_has_its_effect(style: TextStyle, code: u8)
    ensures
        ({
            let after = sgr_code(style, code);
            let normal = seq![
                Color::Black,
                Color::Red,
                Color::Green,
                Color::Yellow,
                Color::Blue,
                Color::Magenta,
                Color::Cyan,
                Color::White,
            ];
            let bright = seq![
                Color::DarkGray,
                Color::LightRed,
                Color::LightGreen,
                Color::LightYellow,
                Color::LightBlue,
                Color::LightMagenta,
                Color::LightCyan,
                Color::Gray,
            ];
            &&& code == 0 ==> after == Some(plain_style())
            &&& code == 1 ==> after == Some(TextStyle { bold: true, ..style })
            &&& code == 2 ==> after == Some(TextStyle { dim: true, ..style })
            &&& code == 4 ==> after == Some(TextStyle { underlined: true, ..style })
            &&& code == 7 ==> after == Some(TextStyle { reversed: true, ..style })
            &&& 30 <= code <= 37 ==> after == Some(
                TextStyle { fg: Some(normal[code - 30]), ..style },
            )
            &&& 90 <= code <= 97 ==> after == Some(
                TextStyle { fg: Some(bright[code - 90]), ..style },
            )
            &&& after is None <==> !(code == 0 || code == 1 || code == 2 || code == 4 || code == 7
                || 30 <= code <= 37 || 90 <= code <= 97)
        }),
{
}

/// Of the codes of a sequence the first that has an effect counts; a code that is no number, or
/// none at all, is the code 0.
pub proof fn law_first_code_with_an_effect_counts(
    style: TextStyle,
    part: Seq<char>,
    rest: Seq<Seq<char>>,
)
    ensures
        sgr_codes(style, Seq::empty()) == style,
        sgr_codes(style, seq![part] + rest) == (match sgr_code(style, code_value(part)) {
            Some(changed) => changed,
            None => sgr_codes(style, rest),
        }),
        code_value(part) == (match u8_of(trimmed(part)) {
            Some(code) => code,
            None => 0,
        }),
{
    assert((seq![part] + rest).drop_first() =~= rest);
    assert((seq![part] + rest)[0] == part);
}

/// The codes of a sequence are parted by semicolons.
pub proof fn law_codes_are_parted_by_semicolons(style: TextStyle, codes: Seq<Seq<char>>)
    requires
        codes.len() > 0,
        forall|i: int| 0 <= i < codes.len() ==> !(#[trigger] codes[i]).contains(';'),
    ensures
        sgr_applied(style, crate::text::joined_with(codes, seq![';'])) == sgr_codes(style, codes),
{
    crate::text::law_split_undoes_join(codes, ';');
}

proof fn lemma_run_goes_on(
    line: Seq<char>,
    from: int,
    to: int,
    text: Seq<char>,
    style: TextStyle,
)
    requires
        0 <= from <= to <= line.len(),
        forall|i: int| from <= i < to ==> !#[trigger] escape_at(line, i),
    ensures
        runs_from(line, from, text, style) == runs_from(
            line,
            to,
            text + line.subrange(from, to),
            style,
        ),
    decreases to - from,
{
    if from < to {
        assert(!escape_at(line, from));
        lemma_run_goes_on(line, from + 1, to, text.push(line[from]), style);
        assert(text.push(line[from]) + line.subrange(from + 1, to) =~= text + line.subrange(
            from,
            to,
        ));
    } else {
        assert(text + line.subrange(from, to) =~= text);
    }
}

proof fn lemma_sequence_end_is(line: Seq<char>, from: int, end: int)
    requires
        0 <= from <= end <= line.len(),
        forall|i: int| from <= i < end ==> #[trigger] line[i] != 'm',
        end == line.len() || line[end] == 'm',
    ensures
        sequence_end(line, from) == end,
    decreases end - from,
{
    if from < end {
        assert(line[from] != 'm');
        lemma_sequence_end_is(line, from + 1, end);
    }
}

proof fn lemma_sequence_end_shifts(front: Seq<char>, line: Seq<char>, from: int)
    requires
        0 <= from <= line.len(),
    ensures
        sequence_end(front + line, front.len() + from) == front.len() + sequence_end(line, from),
    decreases line.len() - from,
{
    let whole = front + line;
    if from < line.len() {
        assert(whole[front.len() + from] == line[from]);
        if line[from] != 'm' {
            lemma_sequence_end_shifts(front, line, from + 1);
        }
    }
}

proof fn lemma_runs_shift(
    front: Seq<char>,
    line: Seq<char>,
    at: int,
    text: Seq<char>,
    style: TextStyle,
)
    requires
        0 <= at <= line.len(),
    ensures
        runs_from(front + line, front.len() + at, text, style) == runs_from(line, at, text, style),
    decreases line.len() - at,
{
    let whole = front + line;
    let there = front.len() + at;
    if at < line.len() {
        assert(whole[there] == line[at]);
        if at + 1 < line.len() {
            assert(whole[there + 1] == line[at + 1]);
        }
        assert(escape_at(whole, there) == escape_at(line, at));
        if escape_at(line, at) {
            lemma_sequence_end(line, at + 2);
            lemma_sequence_end_shifts(front, line, at + 2);
            let end = sequence_end(line, at + 2);
            assert(sequence_end(whole, there + 2) == front.len() + end);
            assert(whole.subrange(there + 2, front.len() + end) =~= line.subrange(at + 2, end));
            if end < line.len() {
                lemma_runs_shift(
                    front,
                    line,
                    end + 1,
                    Seq::empty(),
                    sgr_applied(style, line.subrange(at + 2, end)),
                );
            }
        } else {
            lemma_runs_shift(front, line, at + 1, text.push(line[at]), style);
        }
    }
}

/// A line is read from one sequence to the next: the text before a sequence has the style that
/// holds so far, the sequence itself is not shown, and the text behind it has the style that its
/// codes make. A sequence that does not end hides the rest of the line.
pub proof fn law_sequence_parts_the_line(
    before: Seq<char>,
    codes: Seq<char>,
    behind: Seq<char>,
    style: TextStyle,
)
    requires
        forall|i: int| 0 <= i < before.len() ==> !#[trigger] escape_at(before, i),
        !codes.contains('m'),
    ensures
        ({
            let sequence = seq!['\u{1b}', '['] + codes;
            let none = Seq::<char>::empty();
            &&& runs_from(before + sequence.push('m') + behind, 0, none, style) == run_of(
                before,
                style,
            ) + runs_from(behind, 0, none, sgr_applied(style, codes))
            &&& runs_from(before + sequence, 0, none, style) == run_of(before, style)
        }),
{
    let none = Seq::<char>::empty();
    let sequence = seq![ESCAPE, '['] + codes;
    let n = before.len() as int;
    let open = before + sequence;
    let line = before + sequence.push('m') + behind;
    let end = n + 2 + codes.len();
    assert forall|i: int| 0 <= i < n implies !#[trigger] escape_at(line, i) by {
        assert(line[i] == before[i]);
        if i + 1 < n {
            assert(line[i + 1] == before[i + 1]);
            assert(!escape_at(before, i));
        } else {
            assert(line[i + 1] == ESCAPE);
        }
    }
    assert forall|i: int| 0 <= i < n implies !#[trigger] escape_at(open, i) by {
        assert(open[i] == before[i]);
        if i + 1 < n {
            assert(open[i + 1] == before[i + 1]);
            assert(!escape_at(before, i));
        } else {
            assert(open[i + 1] == ESCAPE);
        }
    }
    lemma_run_goes_on(line, 0, n, none, style);
    lemma_run_goes_on(open, 0, n, none, style);
    assert(none + line.subrange(0, n) =~= before);
    assert(none + open.subrange(0, n) =~= before);
    assert forall|i: int| n + 2 <= i < end implies #[trigger] line[i] != 'm' by {
        assert(line[i] == codes[i - n - 2]);
        assert(codes.contains(codes[i - n - 2]));
    }
    assert forall|i: int| n + 2 <= i < end implies #[trigger] open[i] != 'm' by {
        assert(open[i] == codes[i - n - 2]);
        assert(codes.contains(codes[i - n - 2]));
    }
    assert(line[end] == 'm');
    assert(open.len() == end);
    lemma_sequence_end_is(line, n + 2, end);
    lemma_sequence_end_is(open, n + 2, end);
    assert(escape_at(line, n));
    assert(escape_at(open, n));
    assert(line.subrange(n + 2, end) =~= codes);
    let front = before + sequence.push('m');
    assert(front.len() == end + 1);
    lemma_runs_shift(front, behind, 0, none, sgr_applied(style, codes));
    assert(front + behind =~= line);
    assert(runs_from(open, n, before, style) =~= run_of(before, style));
}

/// A text without a sequence is one run with the style that holds; an empty one is none.
pub proof fn law_text_without_sequence_is_one_run(text: Seq<char>, style: TextStyle)
    requires
        forall|i: int| 0 <= i < text.len() ==> !#[trigger] escape_at(text, i),
    ensures
        runs_from(text, 0, Seq::empty(), style) == (if text.len() == 0 {
            Seq::empty()
        } else {
            seq![(text, style)]
        }),
{
    let none = Seq::<char>::empty();
    lemma_run_goes_on(text, 0, text.len() as int, none, style);
    assert(none + text.subrange(0, text.len() as int) =~= text);
}

/// A line begins without a style.
pub proof fn law_line_begins_plain(line: Seq<char>)
    ensures
        line_runs(line) == runs_from(line, 0, Seq::empty(), plain_style()),
{
}

/// Where there is no column, nothing is kept of a text but the sign that stands for it.
pub proof fn law_text_is_cut_to_the_sign(text: Seq<char>, widths: Seq<usize>, max_width: int)
    requires
        widths.len() == text.len(),
        max_width <= 0,
    ensures
        text.len() > 0 ==> cut_text(text, widths, max_width) == seq!['…'],
        text.len() == 0 ==> cut_text(text, widths, max_width) == text,
{
    if text.len() > 0 {
        assert(text.take(0).push('…') =~= seq!['…']);
    }
}

/// The columns of a list of characters add up, one after the other.
pub proof fn law_columns_add_up(width: usize, rest: Seq<usize>)
    ensures
        total_columns(Seq::empty()) == 0,
        total_columns(seq![width] + rest) == width + total_columns(rest),
{
    assert((seq![width] + rest).drop_first() =~= rest);
}

/// A text that is cut keeps as much as fits: with one character more, nothing would be left for
/// the sign that stands for the rest.
pub proof fn law_cut_text_keeps_what_fits(widths: Seq<usize>, used: int, max_width: int)
    ensures
        fitting(widths, used, max_width) <= widths.len(),
        fitting(widths, used, max_width) < widths.len() ==> used + total_columns(
            widths.take(fitting(widths, used, max_width) + 1int),
        ) + 1 > max_width,
    decreases widths.len(),
{
    let kept = fitting(widths, used, max_width);
    if widths.len() > 0 {
        let rest = widths.drop_first();
        if used + widths[0] + 1 > max_width {
            assert(widths.take(1) =~= seq![widths[0]] + Seq::<usize>::empty());
            law_columns_add_up(widths[0], Seq::empty());
        } else {
            law_cut_text_keeps_what_fits(rest, used + widths[0], max_width);
            if kept < widths.len() {
                assert(widths.take(kept + 1int) =~= seq![widths[0]] + rest.take(kept as int));
                law_columns_add_up(widths[0], rest.take(kept as int));
            }
        }
    }
}

/// A text is narrowed only if it is wider than it may be, by the columns of its characters; a
/// character without a width takes one column.
pub proof fn law_only_wide_text_is_narrowed(text: Seq<char>, max_width: usize)
    ensures
        text_width(text) <= max_width ==> narrowed(text, max_width) == text,
        text_width(text) > max_width ==> narrowed(text, max_width) == cut_text(
            text,
            columns_of(text),
            max_width as int,
        ),
        columns_of(text).len() == text.len(),
        forall|i: int|
            0 <= i < text.len() ==> #[trigger] columns_of(text)[i] == (match char_width(text[i]) {
                Some(width) => width,
                None => 1usize,
            }),
{
}

/// A line without SGR sequences is shown as it is, in one run without a style.
pub proof fn law_plain_line_is_one_run(line: Seq<char>)
    requires
        forall|i: int| 0 <= i < line.len() ==> !#[trigger] escape_at(line, i),
    ensures
        line_runs(line) == run_of(line, plain_style()),
{
    lemma_plain_runs(line, 0);
    assert(line.take(0) =~= Seq::empty());
}

/// A sequence that resets the style leaves nothing of it.
pub proof fn law_reset_clears_style(style: TextStyle)
    ensures
        sgr_applied(style, Seq::empty()) == plain_style(),
        sgr_applied(style, "0"@) == plain_style(),
{
    reveal_strlit("0");
    let none = Seq::<char>::empty();
    assert(pieces(none, CharSet::Only(';')) =~= seq![none]);
    assert(trimmed(none) =~= none);
    let zero = "0"@;
    assert(zero.drop_last() =~= none);
    assert(none.push('0') =~= zero);
    assert(seq![none].drop_last().push(none.push('0')) =~= seq![zero]);
    assert(pieces(zero, CharSet::Only(';')) =~= seq![zero]);
    assert(trimmed(zero) =~= zero);
    reveal_with_fuel(crate::number::digits_value, 2);
    assert(zero.drop_last().len() == 0);
    assert(u8_of(zero) == Some(0u8));
}

} // verus!

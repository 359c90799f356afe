//! What the library has from other code: the calls it makes, and what it relies on of each.

use ratatui::layout::{Constraint, Direction, Layout};
use vstd::prelude::*;
use vstd::string::*;
use vstd::utf8::*;

use crate::number::{decimal, repeated};

verus! {

// ---------------------------------------------------------------------------
// std: text

/// `String::push` puts one character behind the text.
pub assume_specification[ String::push ](s: &mut String, c: char)
    ensures
        final(s)@ == old(s)@.push(c),
;

/// The lower-case form of a text, by the Unicode rules of `str::to_lowercase`.
pub uninterp spec fn lowercase(s: Seq<char>) -> Seq<char>;

/// A character with the letters `A` to `Z` mapped to `a` to `z`.
pub open spec fn ascii_lower_char(c: char) -> char {
    if 'A' <= c <= 'Z' {
        (c as int + 32) as char
    } else {
        c
    }
}

/// A text with the letters `A` to `Z` mapped to `a` to `z`.
pub open spec fn ascii_lower(s: Seq<char>) -> Seq<char> {
    s.map_values(|c: char| ascii_lower_char(c))
}

/// `str::to_lowercase`: the lower-case form of `s`. Of an ASCII text it maps the letters `A` to
/// `Z` and keeps every other character.
#[verifier::external_body]
pub(crate) fn to_lowercase(s: &str) -> (lower: String)
    ensures
        lower@ == lowercase(s@),
        is_ascii_chars(s@) ==> lower@ == ascii_lower(s@),
{
    s.to_lowercase()
}

/// The lower-case form of one character, by itself, by `char::to_lowercase`.
pub uninterp spec fn lower_char(c: char) -> Seq<char>;

/// `char::to_lowercase`: the characters of the lower-case form of `c`. Of an ASCII character it is
/// one: the letters `A` to `Z` are mapped, and every other character is kept.
#[verifier::external_body]
pub(crate) fn char_to_lowercase(c: char) -> (lower: Vec<char>)
    ensures
        lower@ == lower_char(c),
        c <= '\u{7f}' ==> lower@ == seq![ascii_lower_char(c)],
{
    c.to_lowercase().collect()
}

/// The text that `String::from_utf8_lossy` reads from bytes.
pub uninterp spec fn utf8_lossy(bytes: Seq<u8>) -> Seq<char>;

/// `String::from_utf8_lossy`: the text of `bytes`, with a replacement character for what is no
/// UTF-8. Valid UTF-8 is read as it is.
#[verifier::external_body]
pub(crate) fn from_utf8_lossy(bytes: &Vec<u8>) -> (text: String)
    ensures
        text@ == utf8_lossy(bytes@),
        valid_utf8(bytes@) ==> text@ == decode_utf8(bytes@),
{
    String::from_utf8_lossy(bytes).to_string()
}

// ---------------------------------------------------------------------------
// std: time

/// The seconds of a duration, written with `digits` digits behind the point.
pub uninterp spec fn seconds_text(secs: u64, nanos: u32, digits: usize) -> Seq<char>;

/// `Duration::as_secs_f64`, written by `format!` with `digits` digits behind the point. Whole
/// seconds that an `f64` holds are written as they are.
#[verifier::external_body]
pub(crate) fn format_seconds(secs: u64, nanos: u32, digits: usize) -> (text: String)
    requires
        nanos < 1_000_000_000,
        digits <= 9,
    ensures
        text@ == seconds_text(secs, nanos, digits),
        nanos == 0 && secs <= 0x20_0000_0000_0000 && digits > 0 ==> text@ == decimal(secs as nat)
            + "."@ + repeated('0', digits as nat),
{
    format!("{:.*}", digits, std::time::Duration::new(secs, nanos).as_secs_f64())
}

/// `SystemTime::now`, as whole seconds since the Unix epoch; none where the clock stands before
/// it. The time is what the machine's clock says, so nothing is promised of it.
#[verifier::external_body]
pub(crate) fn clock_seconds() -> (secs: Option<u64>) {
    std::time::SystemTime::now().duration_since(std::time::UNIX_EPOCH).map(
        |elapsed| elapsed.as_secs(),
    ).ok()
}

// ---------------------------------------------------------------------------
// serde_json

/// `serde_json::Value`: a JSON document.
#[verifier::external_type_specification]
#[verifier::external_body]
pub struct ExJsonValue(serde_json::Value);

/// What a JSON document holds, as the text that `serde_json` writes for it.
pub uninterp spec fn json_text(value: serde_json::Value) -> Seq<char>;

/// The document that `serde_json::from_str` reads from a text, or the message of its error.
pub uninterp spec fn json_parsed(text: Seq<char>) -> Result<Seq<char>, Seq<char>>;

/// The node that `Value::pointer` finds in a document.
pub uninterp spec fn json_found(document: Seq<char>, pointer: Seq<char>) -> Option<Seq<char>>;

/// What the logic reads of a node of a JSON document: the entries of an object, by key, the
/// items of an array, or neither. A value is told only where it is a string.
#[derive(Debug, PartialEq, Eq)]
pub enum JsonNode {
    Object(Vec<(String, Option<String>)>),
    Array(Vec<Option<String>>),
    Other,
}

/// What a `JsonNode` holds.
pub enum JsonShape {
    Object(Seq<(Seq<char>, Option<Seq<char>>)>),
    Array(Seq<Option<Seq<char>>>),
    Other,
}

impl DeepView for JsonNode {
    type V = JsonShape;

    open spec fn deep_view(&self) -> JsonShape {
        match self {
            JsonNode::Object(entries) => JsonShape::Object(entries.deep_view()),
            JsonNode::Array(items) => JsonShape::Array(items.deep_view()),
            JsonNode::Other => JsonShape::Other,
        }
    }
}

/// The node that a document is: what `Value::as_object`, `Value::as_array` and `Value::as_str`
/// tell of it, in the order of its entries.
pub uninterp spec fn json_shape(document: Seq<char>) -> JsonShape;

/// `serde_json::from_str` into a `Value`; an error is handed on as its message.
#[verifier::external_body]
pub(crate) fn json_parse(text: &str) -> (document: Result<serde_json::Value, String>)
    ensures
        json_parsed(text@) == (match document {
            Ok(value) => Ok(json_text(value)),
            Err(message) => Err(message@),
        }),
{
    serde_json::from_str(text).map_err(|err: serde_json::Error| err.to_string())
}

/// `Value::pointer`: the node at an RFC 6901 pointer. The empty pointer is the document itself,
/// and a pointer that is not empty finds nothing unless it begins with a slash.
#[verifier::external_body]
pub(crate) fn json_pointer<'a>(
    document: &'a serde_json::Value,
    pointer: &str,
) -> (node: Option<&'a serde_json::Value>)
    ensures
        json_found(json_text(*document), pointer@) == (match node {
            Some(found) => Some(json_text(*found)),
            None => None,
        }),
        pointer@.len() == 0 ==> node == Some(document),
        pointer@.len() > 0 && pointer@[0] != '/' ==> node is None,
{
    document.pointer(pointer)
}

/// The variants of `Value` told apart; `Value::as_str` tells which values are strings.
#[verifier::external_body]
pub(crate) fn json_node(value: &serde_json::Value) -> (node: JsonNode)
    ensures
        node.deep_view() == json_shape(json_text(*value)),
{
    match value {
        serde_json::Value::Object(map) => JsonNode::Object(
            map.iter().map(|(key, entry)| (key.clone(), entry.as_str().map(String::from))).collect(),
        ),
        serde_json::Value::Array(items) => JsonNode::Array(
            items.iter().map(|item| item.as_str().map(String::from)).collect(),
        ),
        _ => JsonNode::Other,
    }
}

// ---------------------------------------------------------------------------
// unicode_width

/// The columns that a text takes in a terminal, by `UnicodeWidthStr::width`.
pub uninterp spec fn text_width(s: Seq<char>) -> usize;

/// The columns that a character takes in a terminal, by `UnicodeWidthChar::width`; none for a
/// control character.
pub uninterp spec fn char_width(c: char) -> Option<usize>;

/// A character that ASCII prints: the space to the tilde.
pub open spec fn is_printable(c: char) -> bool {
    ' ' <= c <= '~'
}

/// `UnicodeWidthStr::width`: a text of printable ASCII takes a column for each character.
#[verifier::external_body]
pub(crate) fn width_of(s: &str) -> (width: usize)
    ensures
        width == text_width(s@),
        (forall|i: int| 0 <= i < s@.len() ==> is_printable(#[trigger] s@[i])) ==> width == s@.len(),
{
    unicode_width::UnicodeWidthStr::width(s)
}

/// `UnicodeWidthChar::width`: none for the control characters, one column for a printable ASCII
/// character, and at most three for any.
#[verifier::external_body]
pub(crate) fn width_of_char(c: char) -> (width: Option<usize>)
    ensures
        width == char_width(c),
        width is None <==> c < ' ' || '\u{7f}' <= c < '\u{a0}',
        is_printable(c) ==> width == Some(1usize),
        width matches Some(columns) ==> columns <= 3,
{
    unicode_width::UnicodeWidthChar::width(c)
}

// ---------------------------------------------------------------------------
// ratatui

/// A rectangle of the terminal, in cells.
#[derive(Debug, Clone, Copy, PartialEq, Eq, Structural)]
pub struct Rect {
    pub x: u16,
    pub y: u16,
    pub width: u16,
    pub height: u16,
}

impl Default for Rect {
    fn default() -> (area: Self)
        ensures
            area == (Rect { x: 0, y: 0, width: 0, height: 0 }),
    {
        Rect { x: 0, y: 0, width: 0, height: 0 }
    }
}

impl Rect {
    /// The cells of the rectangle lie on a screen that `u16` counts.
    pub open spec fn fits(self) -> bool {
        self.x + self.width <= u16::MAX && self.y + self.height <= u16::MAX
    }
}

/// The lesser of two numbers.
pub open spec fn least(a: int, b: int) -> int {
    if a <= b {
        a
    } else {
        b
    }
}

/// The greater of two numbers.
pub open spec fn greatest(a: int, b: int) -> int {
    if a >= b {
        a
    } else {
        b
    }
}

/// The size that one of two areas asks for.
#[derive(Debug, Clone, Copy, PartialEq, Eq, Structural)]
pub enum SizeRule {
    /// At least so many cells, and what the other area leaves.
    Min(u16),
    /// So many cells.
    Length(u16),
}

/// The cells of the first of two areas that share `total` cells: a length is given its cells, as
/// far as the least size of the other area leaves them, and the other area has the rest.
pub open spec fn first_share(total: int, first: SizeRule, second: SizeRule) -> int {
    match (first, second) {
        (SizeRule::Min(min), SizeRule::Length(length)) => greatest(
            total - length,
            least(min as int, total),
        ),
        (SizeRule::Length(length), SizeRule::Min(min)) => least(
            length as int,
            greatest(total - min, 0),
        ),
        _ => 0,
    }
}

/// The two areas that `area` is split in, side by side or one above the other, up to the last cell
/// that `u16` counts.
pub open spec fn area_split(
    area: Rect,
    vertical: bool,
    first: SizeRule,
    second: SizeRule,
) -> (Rect, Rect) {
    if vertical {
        let total = least(area.y + area.height, u16::MAX as int) - area.y;
        let share = first_share(total, first, second);
        (
            Rect { height: share as u16, ..area },
            Rect { y: (area.y + share) as u16, height: (total - share) as u16, ..area },
        )
    } else {
        let total = least(area.x + area.width, u16::MAX as int) - area.x;
        let share = first_share(total, first, second);
        (
            Rect { width: share as u16, ..area },
            Rect { x: (area.x + share) as u16, width: (total - share) as u16, ..area },
        )
    }
}

/// `Layout::split` of `area` in two, one of which asks for a length and the other for at least so
/// many cells: the least size counts more than the length, and the areas leave no cell between
/// them nor behind them. `Layout` reads a least size as `i16`.
#[verifier::external_body]
pub(crate) fn split_area(area: Rect, vertical: bool, first: SizeRule, second: SizeRule) -> (parts: (
    Rect,
    Rect,
))
    requires
        first is Min <==> second is Length,
        first matches SizeRule::Min(min) ==> min <= i16::MAX,
        second matches SizeRule::Min(min) ==> min <= i16::MAX,
    ensures
        parts == area_split(area, vertical, first, second),
{
    let rule = |size: SizeRule| match size {
        SizeRule::Min(cells) => Constraint::Min(cells),
        SizeRule::Length(cells) => Constraint::Length(cells),
    };
    let direction = match vertical {
        true => Direction::Vertical,
        false => Direction::Horizontal,
    };
    let Rect { x, y, width, height } = area;
    let layout = Layout::default().direction(direction).constraints([rule(first), rule(second)]);
    let chunks = layout.split(ratatui::layout::Rect { x, y, width, height });
    let own = |r: ratatui::layout::Rect| Rect { x: r.x, y: r.y, width: r.width, height: r.height };
    (own(chunks[0]), own(chunks[1]))
}

/// What a border of one cell on every side leaves of `area`.
pub open spec fn inside_border(area: Rect) -> Rect {
    Rect {
        x: least(least(area.x + 1, u16::MAX as int), area.x + area.width) as u16,
        y: least(least(area.y + 1, u16::MAX as int), area.y + area.height) as u16,
        width: greatest(area.width - 2, 0) as u16,
        height: greatest(area.height - 2, 0) as u16,
    }
}

/// `Block::inner` of a block with borders on every side.
#[verifier::external_body]
pub(crate) fn block_inner(area: Rect) -> (inner: Rect)
    ensures
        inner == inside_border(area),
{
    let Rect { x, y, width, height } = area;
    let block = ratatui::widgets::Block::default().borders(ratatui::widgets::Borders::ALL);
    let inner = block.inner(ratatui::layout::Rect { x, y, width, height });
    Rect { x: inner.x, y: inner.y, width: inner.width, height: inner.height }
}

} // verus!

use pull_all_tui::style::{
    ansi_line, apply_sgr, cut_to_width, in_color, styled, truncate_str, Color, TextStyle,
};

#[test]
fn a_plain_line_is_one_run() {
    assert_eq!(ansi_line("plain text"), vec![styled("plain text", TextStyle::default())]);
    assert!(ansi_line("").is_empty());
}

#[test]
fn escape_codes_start_new_runs() {
    let runs = ansi_line("\u{1b}[32m+added\u{1b}[0m rest \u{1b}[1mbold");
    assert_eq!(
        runs,
        vec![
            styled("+added", in_color(Color::Green)),
            styled(" rest ", TextStyle::default()),
            styled("bold", TextStyle { bold: true, ..TextStyle::default() }),
        ]
    );
}

#[test]
fn an_open_sequence_swallows_the_rest() {
    assert_eq!(ansi_line("a\u{1b}[31"), vec![styled("a", TextStyle::default())]);
    assert_eq!(ansi_line("a\u{1b}"), vec![styled("a\u{1b}", TextStyle::default())]);
}

#[test]
fn characters_are_shown_as_they_are() {
    assert_eq!(ansi_line("é"), vec![styled("é", TextStyle::default())]);
    assert_eq!(
        ansi_line("⊘ \u{1b}[31mSkipping é"),
        vec![styled("⊘ ", TextStyle::default()), styled("Skipping é", in_color(Color::Red))]
    );
}

#[test]
fn the_first_known_code_counts() {
    let plain = TextStyle::default();
    assert_eq!(apply_sgr(plain, "38;31"), in_color(Color::Red));
    assert_eq!(apply_sgr(plain, "1;31"), TextStyle { bold: true, ..plain });
    assert_eq!(apply_sgr(in_color(Color::Red), ""), plain);
    assert_eq!(apply_sgr(in_color(Color::Red), "0"), plain);
    assert_eq!(apply_sgr(in_color(Color::Red), "oops"), plain);
    assert_eq!(apply_sgr(in_color(Color::Red), "38"), in_color(Color::Red));
    assert_eq!(apply_sgr(plain, " 36 "), in_color(Color::Cyan));
}

#[test]
fn every_code_has_its_effect() {
    let plain = TextStyle::default();
    assert_eq!(apply_sgr(plain, "2"), TextStyle { dim: true, ..plain });
    assert_eq!(apply_sgr(plain, "4"), TextStyle { underlined: true, ..plain });
    assert_eq!(apply_sgr(plain, "7"), TextStyle { reversed: true, ..plain });
    for (code, color) in [
        ("30", Color::Black),
        ("31", Color::Red),
        ("32", Color::Green),
        ("33", Color::Yellow),
        ("34", Color::Blue),
        ("35", Color::Magenta),
        ("36", Color::Cyan),
        ("37", Color::White),
        ("90", Color::DarkGray),
        ("91", Color::LightRed),
        ("92", Color::LightGreen),
        ("93", Color::LightYellow),
        ("94", Color::LightBlue),
        ("95", Color::LightMagenta),
        ("96", Color::LightCyan),
        ("97", Color::Gray),
    ] {
        assert_eq!(apply_sgr(plain, code), in_color(color));
    }
}

#[test]
fn text_is_cut_to_its_columns() {
    assert_eq!(truncate_str("short", 5), "short");
    assert_eq!(truncate_str("longer", 5), "long…");
    assert_eq!(truncate_str("longer", 1), "…");
    assert_eq!(truncate_str("longer", 0), "…");
    assert_eq!(truncate_str("", 0), "");
}

#[test]
fn wide_characters_take_two_columns() {
    assert_eq!(truncate_str("漢字", 4), "漢字");
    assert_eq!(truncate_str("漢字", 3), "漢…");
    assert_eq!(truncate_str("漢字", 2), "…");
    assert_eq!(truncate_str("e\u{301}xy", 2), "e\u{301}…");
}

#[test]
fn control_characters_count_one_column() {
    assert_eq!(truncate_str("\u{7}ab", 2), "\u{7}…");
}

#[test]
fn cutting_goes_by_the_given_columns() {
    assert_eq!(cut_to_width("abc", &vec![1, 1, 1], 3), "ab…");
    assert_eq!(cut_to_width("abc", &vec![1, 1, 1], 4), "abc");
    assert_eq!(cut_to_width("abc", &vec![0, 2, 1], 3), "ab…");
    assert_eq!(cut_to_width("abc", &vec![usize::MAX, 1, 1], usize::MAX), "…");
}

use pull_all_tui::elapsed::Elapsed;
use pull_all_tui::profile::{format_report, format_row, profile_enabled, truncate, ProfileRow};

fn row(name: &str, secs: u64, nanos: u32, last: &str) -> ProfileRow {
    ProfileRow {
        name: name.to_string(),
        branch: "main".to_string(),
        status: "updated",
        elapsed: Elapsed { secs, nanos },
        last_log_line: last.to_string(),
    }
}

#[test]
fn the_report_is_slowest_first() {
    let report = format_report(vec![
        row("quick", 0, 250_000_000, "  fast  "),
        row("slow", 12, 345_678_901, "boom"),
        row("same-a", 1, 0, ""),
        row("same-b", 1, 0, ""),
    ]);
    assert_eq!(
        report,
        "pull-all-tui profile — 4 repos, slowest first\n\
         \u{20}   12.35s  updated     slow    (main)  boom\n\
         \u{20}    1.00s  updated     same-a  (main)  \n\
         \u{20}    1.00s  updated     same-b  (main)  \n\
         \u{20}    0.25s  updated     quick   (main)  fast\n"
    );
}

#[test]
fn an_empty_report_has_its_header() {
    assert_eq!(format_report(vec![]), "pull-all-tui profile — 0 repos, slowest first\n");
}

#[test]
fn names_are_filled_up_to_the_longest_in_bytes() {
    let report = format_report(vec![row("é", 2, 0, ""), row("a", 1, 0, "")]);
    let lines: Vec<&str> = report.lines().collect();
    assert!(lines[1].contains("  é   (main)"), "{report}");
    assert!(lines[2].contains("  a   (main)"), "{report}");
}

#[test]
fn a_row_shows_a_hundred_characters_of_the_log() {
    let line = format_row("1.50", &row("a", 0, 0, &"x".repeat(150)), 3);
    assert_eq!(line, format!("     1.50s  updated     a    (main)  {}\n", "x".repeat(100)));
}

#[test]
fn truncation_keeps_a_prefix() {
    assert_eq!(truncate("abc", 3), "abc");
    assert_eq!(truncate("äbc", 2), "äb");
    assert_eq!(truncate("abc", 0), "");
}

#[test]
fn profiling_is_enabled_by_flag_or_variable() {
    assert!(profile_enabled(true, &None));
    assert!(!profile_enabled(false, &None));
    assert!(!profile_enabled(false, &Some(String::new())));
    assert!(profile_enabled(false, &Some("0".to_string())));
}

#[test]
fn spans_are_subtracted() {
    let span = |secs, nanos| Elapsed { secs, nanos };
    assert_eq!(span(5, 100).since(span(3, 200)), span(1, 999_999_900));
    assert_eq!(span(5, 300).since(span(3, 200)), span(2, 100));
    assert_eq!(span(3, 0).since(span(5, 0)), Elapsed::zero());
    assert_eq!(span(61, 50_000_000).tenths(), "61.0");
    assert_eq!(span(61, 60_000_000).hundredths(), "61.06");
    assert_eq!(span(9_007_199_254_740_992, 0).tenths(), "9007199254740992.0");
}

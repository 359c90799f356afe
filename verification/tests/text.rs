use std::path::Path;

use pull_all_tui::number::{
    align_left, align_right, decimal_text, parse_i64, parse_u32, parse_u8, repeat_char,
};
use pull_all_tui::order::text_less;
use pull_all_tui::path::{join_path, path_parts, relative_path, same_path, sort_paths};
use pull_all_tui::text::{
    byte_len, chars_of, contains, copy_texts, drop_suffix, is_whitespace, join, lines, list_has,
    nonblank_lines, same, split, split_once, starts_with, string_of, strip_prefix, trim, trim_end,
    trimmed_lines, words, CharSet,
};

const SAMPLES: [&str; 26] = [
    "",
    " ",
    "\n",
    "\r\n",
    "a",
    "a\n",
    "a\r\nb\r",
    "\n\na\n",
    "one two\tthree",
    "  padded  ",
    "\u{a0}nbsp\u{3000}",
    "git@host:org/repo.git",
    "ends.git",
    ".git",
    "a -> b -> c",
    "ab\u{1f}cd\u{1f}",
    "ünïcödé ✓",
    "ahead 1, behind 4",
    "+12",
    "-0",
    "007",
    "/a//b/./c/",
    "./x/../y",
    "no newline at end\nlast",
    "a\r",
    "\u{85}x\u{2028}",
];

#[test]
fn white_space_is_the_unicode_property() {
    for code in 0..=0x10ffffu32 {
        if let Some(c) = char::from_u32(code) {
            assert_eq!(is_whitespace(c), c.is_whitespace(), "{code:x}");
        }
    }
}

#[test]
fn trimming_matches_std() {
    for sample in SAMPLES {
        assert_eq!(trim(sample), sample.trim());
        assert_eq!(trim_end(sample, &CharSet::LineEnd), sample.trim_end_matches(['\n', '\r']));
    }
}

#[test]
fn lines_match_std() {
    for sample in SAMPLES {
        let expected: Vec<&str> = sample.lines().collect();
        assert_eq!(lines(sample), expected, "{sample:?}");
        let nonblank: Vec<&str> = sample.lines().filter(|line| !line.trim().is_empty()).collect();
        assert_eq!(nonblank_lines(sample), nonblank);
        let trimmed: Vec<&str> =
            sample.lines().map(str::trim).filter(|line| !line.is_empty()).collect();
        assert_eq!(trimmed_lines(sample), trimmed);
    }
}

#[test]
fn splitting_matches_std() {
    for sample in SAMPLES {
        let expected: Vec<&str> = sample.split('\u{1f}').collect();
        assert_eq!(split(sample, &CharSet::Only('\u{1f}')), expected);
        let expected: Vec<&str> = sample.split_whitespace().collect();
        assert_eq!(words(sample, &CharSet::White), expected, "{sample:?}");
        let expected: Vec<&str> =
            sample.split([',', ' ']).filter(|token| !token.is_empty()).collect();
        assert_eq!(words(sample, &CharSet::CommaOrSpace), expected);
    }
}

#[test]
fn searching_matches_std() {
    for sample in SAMPLES {
        for needle in ["", "a", "git", " -> ", ".git", ":", "/", "✓"] {
            assert_eq!(contains(sample, needle), sample.contains(needle));
            assert_eq!(starts_with(sample, needle), sample.starts_with(needle));
            assert_eq!(strip_prefix(sample, needle).as_deref(), sample.strip_prefix(needle));
            let suffix = sample.strip_suffix(needle).unwrap_or(sample);
            assert_eq!(drop_suffix(sample, needle), suffix);
            let once = split_once(sample, needle);
            let once = once.as_ref().map(|(left, right)| (left.as_str(), right.as_str()));
            assert_eq!(once, sample.split_once(needle), "{sample:?} {needle:?}");
        }
    }
}

#[test]
fn lengths_and_characters_match_std() {
    for sample in SAMPLES {
        assert_eq!(byte_len(sample), sample.len());
        let chars: Vec<char> = sample.chars().collect();
        assert_eq!(chars_of(sample), chars);
        assert_eq!(string_of(&chars, 0, chars.len()), sample);
        for other in SAMPLES {
            assert_eq!(same(sample, other), sample == other);
            assert_eq!(text_less(sample, other), sample < other);
        }
    }
}

#[test]
fn joining_matches_std() {
    for texts in [vec![], vec!["a"], vec!["a", "b"], vec!["", "", "c"]] {
        let owned: Vec<String> = texts.iter().map(|text| text.to_string()).collect();
        assert_eq!(join(&owned, ", "), texts.join(", "));
        assert_eq!(copy_texts(&owned), owned);
        assert_eq!(list_has(&owned, "b"), texts.contains(&"b"));
    }
}

#[test]
fn splitting_undoes_joining() {
    let texts = vec!["hash".to_string(), String::new(), "a b".to_string()];
    assert_eq!(split(&join(&texts, "\u{1f}"), &CharSet::Only('\u{1f}')), texts);
}

#[test]
fn numbers_match_std() {
    for sample in [
        "", "+", "-", "0", "00", "7", "255", "256", "+255", "-1", "4294967295", "4294967296",
        "9223372036854775807", "9223372036854775808", "-9223372036854775808",
        "-9223372036854775809", "12a", " 1", "１", "99999999999999999999999999",
    ] {
        assert_eq!(parse_u32(sample), sample.parse::<u32>().ok(), "{sample}");
        assert_eq!(parse_u8(sample), sample.parse::<u8>().ok(), "{sample}");
        assert_eq!(parse_i64(sample), sample.parse::<i64>().ok(), "{sample}");
    }
}

#[test]
fn numbers_read_back() {
    for n in [0u64, 9, 10, 99, 100, 4294967295, 18446744073709551615] {
        assert_eq!(decimal_text(n), n.to_string());
    }
    assert_eq!(parse_u32(&decimal_text(4294967295)), Some(4294967295));
}

#[test]
fn filling_matches_format() {
    for sample in SAMPLES {
        for width in [0usize, 1, 8, 16] {
            assert_eq!(align_left(sample, width), format!("{sample:<width$}"));
            assert_eq!(align_right(sample, width), format!("{sample:>width$}"));
        }
    }
    assert_eq!(repeat_char('─', 3), "───");
}

const PATHS: [&str; 22] = [
    "",
    ".",
    "/",
    "a",
    "a/",
    "./a",
    "a/./b",
    "a//b",
    "a/b/",
    "/a",
    "/a/b",
    "/a/b/c",
    "//a",
    "/./a",
    "..",
    "../a",
    "a/..",
    "/a/.",
    "a/b.c",
    "a-b",
    "/home/me/projects",
    "/home/me/projects/personal/pull-all",
];

#[test]
fn paths_match_std() {
    for root in PATHS {
        for path in PATHS {
            let (root_path, whole) = (Path::new(root), Path::new(path));
            assert_eq!(same_path(root, path), root_path == whole, "{root:?} {path:?}");
            let expected = whole.strip_prefix(root_path).unwrap_or(whole).to_str().unwrap();
            assert_eq!(relative_path(root, path), expected, "{root:?} {path:?}");
            assert_eq!(join_path(root, path), root_path.join(whole).to_str().unwrap());
        }
        let parts: Vec<&str> =
            Path::new(root).components().map(|part| part.as_os_str().to_str().unwrap()).collect();
        assert_eq!(path_parts(root), parts, "{root:?}");
    }
}

#[test]
fn path_order_matches_std() {
    let mut expected: Vec<&Path> = PATHS.iter().map(Path::new).collect();
    expected.sort();
    let owned: Vec<String> = PATHS.iter().map(|path| path.to_string()).collect();
    let sorted = sort_paths(&owned);
    let expected: Vec<&str> = expected.iter().map(|path| path.to_str().unwrap()).collect();
    assert_eq!(sorted, expected);
}

#[test]
fn an_entry_is_told_by_its_name() {
    for dir in PATHS {
        let full = join_path(dir, "name.x");
        assert_eq!(relative_path(dir, &full), "name.x", "{dir:?}");
    }
}

#[test]
fn lines_read_back() {
    let lines = ["a", "", "b c", "\u{e9}"];
    let text: String = lines.iter().map(|line| format!("{line}\n")).collect();
    assert_eq!(pull_all_tui::text::lines(&text), lines);
}

#[test]
fn a_path_below_nothing_keeps_its_parts() {
    for path in ["a/b", "./a/", "/a/./", ".", ""] {
        let rest = pull_all_tui::path::relative_path("", path);
        assert_eq!(
            std::path::Path::new(&rest).components().collect::<Vec<_>>(),
            std::path::Path::new(path).components().collect::<Vec<_>>()
        );
    }
}

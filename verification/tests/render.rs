use pull_all_tui::app::{AppState, Rect, RepoState, RepoStatus, WorktreeEntry};
use pull_all_tui::elapsed::Elapsed;
use pull_all_tui::help::{build_help_items, HELP_LINES};
use pull_all_tui::render::{
    build_list, build_preview, build_result_summary, build_status_row1, centered_rect,
    clamp_scroll, list_view, selected_time, split_status_bar, status_glyph_colored, status_rows,
    status_word,
};
use pull_all_tui::style::{in_color, styled, Color, StyledText, TextStyle};

fn dashboard(names: &[&str]) -> AppState {
    let repos = names
        .iter()
        .map(|name| RepoState::new(name.to_string(), format!("/work/{name}")))
        .collect();
    AppState::new(repos, 4)
}

fn text_of(line: &[StyledText]) -> String {
    line.iter().map(|run| run.text.as_str()).collect()
}

#[test]
fn every_status_has_its_glyph() {
    let glyph = |status| status_glyph_colored(&status, 0);
    assert_eq!(glyph(RepoStatus::Queued), styled("◯", in_color(Color::DarkGray)));
    assert_eq!(glyph(RepoStatus::UpToDate), styled("◌", in_color(Color::Gray)));
    assert_eq!(glyph(RepoStatus::Updated), styled("✓", in_color(Color::Green)));
    assert_eq!(glyph(RepoStatus::Skipped), styled("⊘", in_color(Color::DarkGray)));
    assert_eq!(glyph(RepoStatus::Failed), styled("✗", in_color(Color::Red)));
    let frames: Vec<String> = (0..10)
        .map(|tick| status_glyph_colored(&RepoStatus::Running { pid: 1 }, tick).text)
        .collect();
    assert_eq!(frames.concat(), "◐◐◓◓◑◑◒◒◐◐");
    assert_eq!(status_word(&RepoStatus::UpToDate), "up-to-date");
}

#[test]
fn the_summary_of_nothing() {
    let app = dashboard(&["queued"]);
    assert_eq!(
        build_result_summary(&app),
        vec!["Pull completed!", "", "   No git repositories found."]
    );
}

#[test]
fn the_summary_has_a_section_for_each_status() {
    let mut app = dashboard(&["a", "bb", "c", "d", "e"]);
    app.repos[0].status = RepoStatus::Updated;
    app.repos[0].branch = Some("main".to_string());
    app.repos[1].status = RepoStatus::UpToDate;
    app.repos[2].status = RepoStatus::Skipped;
    app.repos[3].status = RepoStatus::Failed;
    app.worktrees =
        vec![WorktreeEntry { repo: "long".to_string(), branch: "feat".to_string() }];
    assert_eq!(
        build_result_summary(&app),
        vec![
            "Pull completed!",
            "",
            "   4 total: 1 updated, 1 up-to-date, 1 skipped, 1 failed",
            "",
            "+ Updated repositories:",
            "   - a     main",
            "",
            "= Unchanged repositories:",
            "   - bb    ?",
            "",
            "! Skipped repositories (uncommitted changes):",
            "   - c     ?",
            "",
            "x Failed repositories:",
            "   - d     ?",
            "",
            "> Active worktrees:",
            "   - long  feat",
        ]
    );
}

#[test]
fn the_list_shows_repos_a_separator_and_the_result() {
    let mut app = dashboard(&["alpha", "beta"]);
    app.repos[0].status = RepoStatus::Updated;
    app.repos[0].branch = Some("feature/with-a-long-name".to_string());
    let view = build_list(&app, 30, 0, "1.5");
    assert_eq!(view.title, " pull-all · 1/2 · 1.5s ");
    assert_eq!(view.selected, 0);
    assert_eq!(view.rows.len(), 4);
    assert_eq!(text_of(&view.rows[0]), "✓ alpha      feature/with-a…");
    assert_eq!(text_of(&view.rows[1]), "◯ beta       —");
    assert_eq!(view.rows[0][2].style, in_color(Color::Green));
    assert_eq!(view.rows[0][4].style, in_color(Color::Cyan));
    assert_eq!(text_of(&view.rows[2]), "─".repeat(28));
    assert_eq!(text_of(&view.rows[3]), "— Result");
}

#[test]
fn the_result_row_tells_how_it_went() {
    let mut app = dashboard(&["a"]);
    app.all_done = true;
    app.repos[0].status = RepoStatus::UpToDate;
    assert_eq!(build_list(&app, 30, 0, "0.0").rows[2][0], styled("✓", in_color(Color::Green)));
    app.repos[0].status = RepoStatus::Failed;
    let view = build_list(&app, 30, 0, "0.0");
    assert_eq!(view.rows[2][0], styled("✗", in_color(Color::Red)));
    assert_eq!(view.rows[2][2].style, TextStyle::default());
    app.selected = 1;
    assert_eq!(build_list(&app, 30, 0, "0.0").selected, 2);
    let marked = TextStyle { bg: Some(Color::DarkGray), bold: true, ..TextStyle::default() };
    assert_eq!(build_list(&app, 30, 0, "0.0").rows[2][2].style, marked);
}

#[test]
fn a_narrow_list_leaves_one_column_for_the_branch() {
    let mut app = dashboard(&["a"]);
    app.repos[0].branch = Some("main".to_string());
    assert_eq!(text_of(&build_list(&app, 5, 0, "0").rows[0]), "◯ a          …");
    assert_eq!(text_of(&build_list(&app, 19, 0, "0").rows[0]), "◯ a          main");
    assert_eq!(text_of(&build_list(&app, 18, 0, "0").rows[0]), "◯ a          ma…");
}

#[test]
fn the_list_is_laid_out_inside_its_border() {
    let app = dashboard(&["a"]);
    let area = Rect { x: 0, y: 0, width: 12, height: 9 };
    let view = list_view(&app, area, 0, Elapsed { secs: 2, nanos: 0 });
    assert_eq!(view.title, " pull-all · 0/1 · 2.0s ");
    assert_eq!(text_of(&view.rows[1]), "─".repeat(8));
}

#[test]
fn the_preview_shows_the_log_of_the_selected_repo() {
    let mut app = dashboard(&["a", "b"]);
    app.selected = 1;
    app.repos[1].status = RepoStatus::Running { pid: 7 };
    for i in 0..10 {
        app.repos[1].note_line(format!("\u{1b}[31mline {i}"));
    }
    app.repos[1].auto_scroll = false;
    app.repos[1].preview_scroll = 99;
    let view = build_preview(&app, 4, &Some("1.25".to_string()));
    assert_eq!(view.title, " b · running · pid 7 · 1.25s ");
    assert_eq!(view.lines.len(), 10);
    assert_eq!(view.lines[3], vec![styled("line 3", in_color(Color::Red))]);
    assert_eq!(view.scroll, 6);
    assert_eq!(view.border, in_color(Color::DarkGray));
    app.repos[1].preview_scroll = 2;
    app.preview_focused = true;
    let view = build_preview(&app, 4, &None);
    assert_eq!(view.title, " b · running · pid 7 ");
    assert_eq!((view.scroll, view.border), (2, in_color(Color::White)));
    app.repos[1].status = RepoStatus::Failed;
    assert_eq!(build_preview(&app, 4, &None).title, " b · failed · pid — ");
}

#[test]
fn the_preview_follows_the_log() {
    let mut app = dashboard(&["a"]);
    for i in 0..10 {
        app.repos[0].note_line(format!("line {i}"));
    }
    assert_eq!(build_preview(&app, 4, &None).scroll, 6);
    app.repos[0].preview_scroll = 2;
    assert_eq!(build_preview(&app, 4, &None).scroll, 6);
    assert_eq!(build_preview(&app, 12, &None).scroll, 0);
    app.repos[0].auto_scroll = false;
    assert_eq!(build_preview(&app, 4, &None).scroll, 2);
}

#[test]
fn the_preview_shows_the_result() {
    let mut app = dashboard(&["a"]);
    app.result_overlay = true;
    let view = build_preview(&app, 4, &None);
    assert_eq!((view.title.as_str(), view.scroll), (" Result ", 0));
    assert_eq!(text_of(&view.lines[0]), "Pull completed!");
    assert!(view.lines[1].is_empty());
    app.result_overlay = false;
    app.selected = 1;
    assert_eq!(build_preview(&app, 4, &None).title, " Result ");
}

#[test]
fn the_time_of_a_pull_runs_until_it_ends() {
    let mut app = dashboard(&["a"]);
    let now = Elapsed { secs: 10, nanos: 0 };
    assert_eq!(selected_time(&app, now), None);
    app.repos[0].begin_pull(Elapsed { secs: 8, nanos: 0 });
    assert_eq!(selected_time(&app, now).as_deref(), Some("2.00"));
    app.repos[0].elapsed = Some(Elapsed { secs: 1, nanos: 0 });
    assert_eq!(selected_time(&app, now).as_deref(), Some("1.00"));
    app.selected = 1;
    assert_eq!(selected_time(&app, now), None);
}

#[test]
fn scrolling_stops_at_the_last_line() {
    assert_eq!(clamp_scroll(5, 10, 4), 5);
    assert_eq!(clamp_scroll(7, 10, 4), 6);
    assert_eq!(clamp_scroll(7, 3, 4), 0);
}

#[test]
fn the_status_bar_shows_keys_or_the_filter() {
    let keys = "j/k ↑/↓ move · g/G top/end · click select · wheel scroll · space result · ? help";
    assert_eq!(build_status_row1(&None, false), keys);
    assert_eq!(build_status_row1(&Some(String::new()), false), keys);
    assert_eq!(build_status_row1(&Some("x".to_string()), false), format!("[x] {keys}"));
    assert_eq!(build_status_row1(&Some("x".to_string()), true), "Filter: x");
    assert_eq!(build_status_row1(&None, true), "Filter: ");
}

#[test]
fn the_status_bar_dims_keys_without_effect() {
    let mut app = dashboard(&["a", "b"]);
    app.repos[0].status = RepoStatus::Running { pid: 1 };
    app.repos[1].status = RepoStatus::Failed;
    let (_, row) = status_rows(&app, Elapsed { secs: 3, nanos: 0 });
    let dim = TextStyle { dim: true, ..in_color(Color::DarkGray) };
    assert_eq!(row[0], styled("r", dim));
    assert_eq!(row[2], styled("R", in_color(Color::Gray)));
    assert_eq!(row[4], styled("f", dim));
    assert_eq!(row[6], styled("F", in_color(Color::Gray)));
    assert_eq!(row[8].text, "  ·  4 jobs · 1/2 done · 1 running · 3.0s");
    assert_eq!(
        text_of(&row[..8]),
        "r/R retry · f/F refetch · / filter · [ ] / drag resize · tab focus · q quit"
    );
}

#[test]
fn the_screen_is_split_above_the_status_bar() {
    for height in 0..80u16 {
        for (x, y, width) in [(0, 0, 0), (3, 5, 80), (0, 60_000, 65_535)] {
            let area = Rect { x, y, width, height };
            let (main, bar) = split_status_bar(area);
            let status = height.saturating_sub(3).min(2);
            let body = height - status;
            assert_eq!(main, Rect { x, y, width, height: body }, "{area:?}");
            assert_eq!(bar, Rect { x, y: y + body, width, height: status }, "{area:?}");
        }
    }
}

#[test]
fn the_panes_fill_the_main_area() {
    let mut app = dashboard(&[]);
    for width in [0u16, 1, 2, 3, 10, 79, 80, 200, 1000, 65_000] {
        for wanted in [0u16, 1, 2, 5, 32, 79, 80, 999, 65_535] {
            let main = Rect { x: 7, y: 1, width, height: 20 };
            app.lay_out(main, wanted);
            let list = wanted.clamp(1, width.saturating_sub(1).max(1)).min(width);
            assert_eq!(app.main_area, main);
            assert_eq!(app.list_area, Rect { width: list, ..main }, "{width} {wanted}");
            let preview = Rect { x: 7 + list, width: width - list, ..main };
            assert_eq!(app.preview_area, preview, "{width} {wanted}");
            assert_eq!(app.divider_col, preview.x);
        }
    }
}

#[test]
fn areas_end_with_the_screen() {
    let mut app = dashboard(&[]);
    app.lay_out(Rect { x: 65_530, y: 0, width: 20, height: 4 }, 3);
    assert_eq!(app.list_area, Rect { x: 65_530, y: 0, width: 3, height: 4 });
    assert_eq!(app.preview_area, Rect { x: 65_533, y: 0, width: 2, height: 4 });
}

#[test]
fn a_rect_is_centered() {
    let area = Rect { x: 10, y: 20, width: 21, height: 8 };
    assert_eq!(centered_rect(10, 4, area), Rect { x: 15, y: 22, width: 10, height: 4 });
    assert_eq!(centered_rect(50, 50, area), area);
}

#[test]
fn the_help_lists_links_keys_and_repos() {
    let mut app = dashboard(&["app", "a-name-that-is-longer-than-thirty-characters"]);
    app.repos[0].branch = Some("main".to_string());
    app.repos[0].remote_url = Some("https://host/app".to_string());
    let items = build_help_items(&app.repos);
    assert_eq!(items.len(), HELP_LINES.len() + 2);
    let header = TextStyle { bold: true, ..in_color(Color::Yellow) };
    let link = TextStyle { underlined: true, ..in_color(Color::Cyan) };
    assert_eq!(
        items[0].line,
        vec![styled("pull-all — interactive multi-repo git pull dashboard", header)]
    );
    assert_eq!(items[0].url, None);
    let address = "https://github.com/steven-pribilinskiy/pull-all";
    assert_eq!(
        items[2].line,
        vec![styled("GitHub   ", in_color(Color::Gray)), styled(address, link)]
    );
    assert_eq!(items[2].url.as_deref(), Some(address));
    let repo = &items[HELP_LINES.len()];
    assert_eq!(
        text_of(&repo.line),
        format!("  {:<30}  {:<16}https://host/app", "app", "main")
    );
    assert_eq!(repo.url.as_deref(), Some("https://host/app"));
    let other = &items[HELP_LINES.len() + 1];
    assert!(text_of(&other.line).ends_with("?               (no remote)"));
    assert_eq!(other.url, None);
}

#[test]
fn the_help_scrolls_and_captures_its_links() {
    let mut app = dashboard(&["app"]);
    app.repos[0].remote_url = Some("https://host/app".to_string());
    let area = Rect { x: 0, y: 0, width: 100, height: 20 };
    let view = app.help_view(area);
    assert_eq!(view.modal, Rect { x: 2, y: 1, width: 96, height: 18 });
    assert_eq!(view.inner, Rect { x: 3, y: 2, width: 94, height: 16 });
    assert_eq!(view.lines.len(), 16);
    let rows: Vec<u16> = app.help_links.iter().map(|link| link.0).collect();
    assert_eq!(rows, vec![4, 5, 6]);
    app.help_scroll = 1000;
    let view = app.help_view(area);
    assert_eq!(app.help_scroll, HELP_LINES.len() + 1 - 16);
    assert_eq!(text_of(view.lines.last().unwrap()), "  app  ?               https://host/app");
    assert_eq!(app.help_links, vec![(17, "https://host/app".to_string())]);
    let view = app.help_view(Rect { x: 0, y: 0, width: 10, height: 3 });
    assert_eq!(view.modal, Rect { x: 0, y: 0, width: 10, height: 3 });
    assert_eq!(view.lines.len(), 1);
}

#[test]
fn a_click_selects_the_row_that_is_drawn() {
    let mut app = dashboard(&["a", "b", "c"]);
    app.lay_out(Rect { x: 2, y: 1, width: 60, height: 12 }, 20);
    app.list_offset = 1;
    let inner_y = app.list_area.y + 1;
    for row in 0..12u16 {
        if let Some(item) = app.list_selection_at(app.list_area.x + 1, row) {
            app.selected = item;
            let view = build_list(&app, 18, 0, "0.0");
            assert_eq!(view.selected, usize::from(row - inner_y) + app.list_offset);
        }
    }
    assert_eq!(app.list_selection_at(app.list_area.x, inner_y), None);
    assert_eq!(app.list_selection_at(app.list_area.x + 1, inner_y), Some(1));
}

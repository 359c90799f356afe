//! Laws of what is shown: the rows of the list, the lines of the summary, the preview, the status
//! bar and the help.

use vstd::prelude::*;
use vstd::string::*;

use crate::app::{
    names_of, status_count, statuses_of, AppState, Rect, RepoState, RepoStatus, RepoView,
};
use crate::elapsed::Elapsed;
use crate::help::{
    fixed_item, fixed_items, help_height, help_items, help_modal, help_shown, help_width,
    help_window, item_lines, item_links, name_column, repo_item, HelpKind, HELP_LINES,
};
use crate::number::{decimal, left_aligned};
use crate::outside::inside_border;
use crate::render::{
    bottom_scroll, branch_columns, centered, clamped_scroll, count_part, count_parts, entries_with,
    glyph_of, key_style, list_shown, list_width, log_scroll, longest_of, panes, name_style_of, owners_of,
    preview_shown, preview_title, pull_time, repo_row, result_lines, result_row, section,
    section_line, selection_style, separator_row, shows_result, stats_text, status_row1,
    status_row2, status_row2_of, status_word_of, summary_of, total_line, LineRuns, SPINNER_FRAMES,
};
use crate::style::{colored, line_runs, narrowed, plain_style, Color};
use crate::text::{byte_len_of, joined_with};

verus! {

// ---------------------------------------------------------------------------
// Glyphs and words

/// Each status has its own glyph and color. That of a running pull turns through four frames, two
/// ticks each, and does not tell its process.
pub proof fn law_status_has_its_glyph(pid: u32, tick: u64)
    ensures
        ({
            let running = glyph_of(RepoStatus::Running { pid }, tick);
            &&& glyph_of(RepoStatus::Queued, tick) == ("◯"@, colored(Color::DarkGray))
            &&& glyph_of(RepoStatus::UpToDate, tick) == ("◌"@, colored(Color::Gray))
            &&& glyph_of(RepoStatus::Updated, tick) == ("✓"@, colored(Color::Green))
            &&& glyph_of(RepoStatus::Skipped, tick) == ("⊘"@, colored(Color::DarkGray))
            &&& glyph_of(RepoStatus::Failed, tick) == ("✗"@, colored(Color::Red))
            &&& running.1 == colored(Color::Yellow)
            &&& tick % 8 == 0 || tick % 8 == 1 ==> running.0 == "◐"@
            &&& tick % 8 == 2 || tick % 8 == 3 ==> running.0 == "◓"@
            &&& tick % 8 == 4 || tick % 8 == 5 ==> running.0 == "◑"@
            &&& tick % 8 == 6 || tick % 8 == 7 ==> running.0 == "◒"@
        }),
{
    assert(SPINNER_FRAMES@[0]@ == "◐"@);
    assert(SPINNER_FRAMES@[1]@ == "◓"@);
    assert(SPINNER_FRAMES@[2]@ == "◑"@);
    assert(SPINNER_FRAMES@[3]@ == "◒"@);
}

/// The name of a repository is colored by its status, and is plain while it waits and where there
/// was nothing to pull.
pub proof fn law_name_is_colored_by_status(pid: u32)
    ensures
        name_style_of(RepoStatus::Failed) == colored(Color::Red),
        name_style_of(RepoStatus::Updated) == colored(Color::Green),
        name_style_of(RepoStatus::Skipped) == colored(Color::DarkGray),
        name_style_of(RepoStatus::Running { pid }) == colored(Color::Yellow),
        name_style_of(RepoStatus::Queued) == plain_style(),
        name_style_of(RepoStatus::UpToDate) == plain_style(),
{
}

/// Each status has its own word.
pub proof fn law_status_has_its_word(pid: u32)
    ensures
        status_word_of(RepoStatus::Queued) == "queued"@,
        status_word_of(RepoStatus::Running { pid }) == "running"@,
        status_word_of(RepoStatus::UpToDate) == "up-to-date"@,
        status_word_of(RepoStatus::Updated) == "updated"@,
        status_word_of(RepoStatus::Skipped) == "skipped"@,
        status_word_of(RepoStatus::Failed) == "failed"@,
{
}

/// The longest of a list of texts is as long as one of them, or as the least length, and no text
/// is longer.
pub proof fn law_longest_of_the_texts(texts: Seq<Seq<char>>, least_len: nat)
    ensures
        longest_of(texts, least_len) >= least_len,
        forall|i: int|
            0 <= i < texts.len() ==> byte_len_of(#[trigger] texts[i]) <= longest_of(
                texts,
                least_len,
            ),
        longest_of(texts, least_len) == least_len || exists|i: int|
            0 <= i < texts.len() && byte_len_of(#[trigger] texts[i]) == longest_of(
                texts,
                least_len,
            ),
    decreases texts.len(),
{
    if texts.len() > 0 {
        let rest = texts.drop_last();
        let last = texts.len() - 1;
        law_longest_of_the_texts(rest, least_len);
        assert forall|i: int| 0 <= i < texts.len() implies byte_len_of(#[trigger] texts[i])
            <= longest_of(texts, least_len) by {
            if i < last {
                assert(rest[i] == texts[i]);
            }
        }
        if byte_len_of(texts[last]) != longest_of(texts, least_len) && longest_of(texts, least_len)
            != least_len {
            let i = choose|i: int|
                0 <= i < rest.len() && byte_len_of(#[trigger] rest[i]) == longest_of(
                    rest,
                    least_len,
                );
            assert(texts[i] == rest[i]);
        }
    }
}

// ---------------------------------------------------------------------------
// The summary

/// A section of the summary lists each repository with its status, in the order of the
/// repositories, with its branch, or "?" where that is not known.
pub proof fn law_section_lists_repos_with_the_status(
    repos: Seq<RepoView>,
    repo: RepoView,
    status: RepoStatus,
)
    ensures
        entries_with(repos.push(repo), status) == (if repo.status == status {
            entries_with(repos, status).push(
                (
                    repo.name,
                    match repo.branch {
                        Some(branch) => branch,
                        None => "?"@,
                    },
                ),
            )
        } else {
            entries_with(repos, status)
        }),
        entries_with(Seq::empty(), status).len() == 0,
{
    let make = |repo: RepoView| crate::render::entry_with(repo, status);
    let more = repos.push(repo);
    more.lemma_filter_map_take_succ(make, repos.len() as int);
    assert(more.take(repos.len() as int) =~= repos);
    assert(more.take(repos.len() + 1int) =~= more);
}

/// A section without entries is not shown; any other is an empty line, its header, and a line for
/// each entry, in their order: the name, filled up, and the branch.
pub proof fn law_section_has_a_line_for_each_entry(
    header: Seq<char>,
    entries: Seq<(Seq<char>, Seq<char>)>,
    pad: nat,
)
    ensures
        ({
            let lines = section(header, entries, pad);
            &&& entries.len() == 0 ==> lines.len() == 0
            &&& entries.len() > 0 ==> {
                &&& lines.len() == entries.len() + 2
                &&& lines[0].len() == 0
                &&& lines[1] == header
                &&& forall|i: int|
                    0 <= i < entries.len() ==> #[trigger] lines[i + 2] == "   - "@ + left_aligned(
                        entries[i].0,
                        pad,
                    ) + "  "@ + entries[i].1
            }
        }),
{
    let lines = section(header, entries, pad);
    if entries.len() > 0 {
        assert forall|i: int| 0 <= i < entries.len() implies #[trigger] lines[i + 2] == "   - "@
            + left_aligned(entries[i].0, pad) + "  "@ + entries[i].1 by {
            assert(lines[i + 2] == section_line(entries[i], pad));
        }
    }
}

/// A count is mentioned exactly if it is not zero: updated, up to date, skipped and failed, in
/// this order, behind their total.
pub proof fn law_total_mentions_counts_above_zero(
    updated: nat,
    up_to_date: nat,
    skipped: nat,
    failed: nat,
    what: Seq<char>,
)
    ensures
        count_part(0, what).len() == 0,
        updated > 0 ==> count_part(updated, what) == seq![decimal(updated) + what],
        count_parts(updated, up_to_date, skipped, failed) == count_part(updated, " updated"@)
            + count_part(up_to_date, " up-to-date"@) + count_part(skipped, " skipped"@)
            + count_part(failed, " failed"@),
        total_line(updated, up_to_date, skipped, failed) == "   "@ + decimal(
            updated + up_to_date + skipped + failed,
        ) + " total: "@ + joined_with(count_parts(updated, up_to_date, skipped, failed), ", "@),
{
}

/// The summary says that the pull is complete. Without any count it says that there are no
/// repositories; otherwise it gives the total and the sections, in their order, that of the
/// worktrees last.
pub proof fn law_summary_has_its_sections_in_order(
    repos: Seq<RepoView>,
    worktrees: Seq<(Seq<char>, Seq<char>)>,
    updated: nat,
    up_to_date: nat,
    skipped: nat,
    failed: nat,
    pad: nat,
)
    ensures
        ({
            let lines = result_lines(repos, worktrees, updated, up_to_date, skipped, failed, pad);
            let none = updated == 0 && up_to_date == 0 && skipped == 0 && failed == 0;
            &&& lines.len() >= 3
            &&& lines[0] == "Pull completed!"@
            &&& lines[1].len() == 0
            &&& none ==> lines.len() == 3 && lines[2] == "   No git repositories found."@
            &&& !none ==> lines[2] == total_line(updated, up_to_date, skipped, failed)
            &&& !none ==> lines.skip(3) == section(
                "+ Updated repositories:"@,
                entries_with(repos, RepoStatus::Updated),
                pad,
            ) + section(
                "= Unchanged repositories:"@,
                entries_with(repos, RepoStatus::UpToDate),
                pad,
            ) + section(
                "! Skipped repositories (uncommitted changes):"@,
                entries_with(repos, RepoStatus::Skipped),
                pad,
            ) + section("x Failed repositories:"@, entries_with(repos, RepoStatus::Failed), pad)
                + section("> Active worktrees:"@, worktrees, pad)
        }),
{
    let lines = result_lines(repos, worktrees, updated, up_to_date, skipped, failed, pad);
    if updated + up_to_date + skipped + failed > 0 {
        assert(lines.skip(3) =~= section(
            "+ Updated repositories:"@,
            entries_with(repos, RepoStatus::Updated),
            pad,
        ) + section(
            "= Unchanged repositories:"@,
            entries_with(repos, RepoStatus::UpToDate),
            pad,
        ) + section(
            "! Skipped repositories (uncommitted changes):"@,
            entries_with(repos, RepoStatus::Skipped),
            pad,
        ) + section("x Failed repositories:"@, entries_with(repos, RepoStatus::Failed), pad)
            + section("> Active worktrees:"@, worktrees, pad));
    }
}

proof fn lemma_longest_of_both(a: Seq<Seq<char>>, b: Seq<Seq<char>>)
    ensures
        longest_of(b, longest_of(a, 0)) == longest_of(a + b, 0),
    decreases b.len(),
{
    if b.len() == 0 {
        assert(a + b =~= a);
    } else {
        lemma_longest_of_both(a, b.drop_last());
        assert((a + b).drop_last() =~= a + b.drop_last());
    }
}

/// The summary of the dashboard counts its repositories by status, and fills every name up to the
/// longest of the repositories and of the worktrees' owners.
pub proof fn law_summary_counts_the_repos(app: AppState)
    ensures
        ({
            let statuses = app.repos@.map_values(|repo: RepoState| repo.status);
            let names = app.repos@.map_values(|repo: RepoState| repo.name@);
            let owners = app.worktrees.deep_view().map_values(
                |worktree: (Seq<char>, Seq<char>)| worktree.0,
            );
            summary_of(app) == result_lines(
                app.repos.deep_view(),
                app.worktrees.deep_view(),
                status_count(statuses, |s: RepoStatus| s is Updated),
                status_count(statuses, |s: RepoStatus| s is UpToDate),
                status_count(statuses, |s: RepoStatus| s is Skipped),
                status_count(statuses, |s: RepoStatus| s is Failed),
                longest_of(names + owners, 0),
            )
        }),
{
    let statuses = app.repos@.map_values(|repo: RepoState| repo.status);
    let names = app.repos@.map_values(|repo: RepoState| repo.name@);
    let owners = app.worktrees.deep_view().map_values(
        |worktree: (Seq<char>, Seq<char>)| worktree.0,
    );
    assert(statuses_of(app.repos@) =~= statuses);
    assert(names_of(app.repos@) =~= names);
    assert(owners_of(app.worktrees.deep_view()) =~= owners);
    lemma_longest_of_both(names, owners);
}

// ---------------------------------------------------------------------------
// The list

/// The list has a row for each repository that is listed, in their order, a line, and the row of
/// the result; its title counts the pulls that are over.
pub proof fn law_list_shows_each_listed_repo(
    app: AppState,
    inner_width: u16,
    tick: u64,
    elapsed: Seq<char>,
)
    ensures
        ({
            let shown = list_shown(app, inner_width, tick, elapsed);
            let statuses = app.repos@.map_values(|repo: RepoState| repo.status);
            let names = app.repos@.map_values(|repo: RepoState| repo.name@);
            let listed = app.visible();
            let n = listed.len() as int;
            let name_width = longest_of(names, 10);
            &&& shown.title == " pull-all · "@ + decimal(
                status_count(statuses, |s: RepoStatus| s.is_over()),
            ) + "/"@ + decimal(app.repos@.len()) + " · "@ + elapsed + "s "@
            &&& shown.rows.len() == n + 2
            &&& forall|k: int|
                0 <= k < n ==> #[trigger] shown.rows[k] == repo_row(
                    app.repos.deep_view()[listed[k] as int],
                    tick,
                    name_width,
                    branch_columns(inner_width as nat, name_width),
                )
            &&& shown.rows[n] == separator_row(inner_width as nat)
            &&& shown.rows[n + 1] == result_row(
                app.all_done,
                status_count(statuses, |s: RepoStatus| s is Failed),
                app.selected >= n,
            )
        }),
{
    let statuses = app.repos@.map_values(|repo: RepoState| repo.status);
    let names = app.repos@.map_values(|repo: RepoState| repo.name@);
    assert(statuses_of(app.repos@) =~= statuses);
    assert(names_of(app.repos@) =~= names);
}

/// The row of a repository shows its glyph, its name, filled up and colored by its status, and its
/// branch, narrowed to its column, or a dash where that is not known.
pub proof fn law_row_shows_glyph_name_and_branch(
    repo: RepoView,
    tick: u64,
    name_width: nat,
    branch_width: usize,
)
    ensures
        ({
            let row = repo_row(repo, tick, name_width, branch_width);
            &&& row.len() == 5
            &&& row[0] == glyph_of(repo.status, tick)
            &&& row[1] == (" "@, plain_style())
            &&& row[2] == (left_aligned(repo.name, name_width), name_style_of(repo.status))
            &&& row[3] == (" "@, plain_style())
            &&& row[4].1 == colored(Color::Cyan)
            &&& repo.branch matches Some(branch) ==> row[4].0 == narrowed(branch, branch_width)
            &&& repo.branch is None ==> row[4].0 == narrowed("—"@, branch_width)
        }),
{
}

/// The branch has the columns that the glyph, the name, the spaces between them and the border
/// leave, and one where they leave none.
pub proof fn law_branch_has_what_the_name_leaves(inner_width: u16, name_width: nat)
    ensures
        name_width + 6 <= inner_width ==> branch_columns(inner_width as nat, name_width)
            + name_width + 5 == inner_width,
        name_width + 6 > inner_width ==> branch_columns(inner_width as nat, name_width) == 1,
{
}

/// The row of the result has a dash until every pull is over, and then a cross if any failed and
/// a tick if none did. It is marked where it is selected.
pub proof fn law_result_row_tells_failure(all_done: bool, failed: nat, marked: bool)
    ensures
        ({
            let row = result_row(all_done, failed, marked);
            let mark = selection_style();
            &&& row.len() == 3
            &&& !all_done ==> row[0] == ("—"@, colored(Color::DarkGray))
            &&& all_done && failed > 0 ==> row[0] == ("✗"@, colored(Color::Red))
            &&& all_done && failed == 0 ==> row[0] == ("✓"@, colored(Color::Green))
            &&& row[1] == (" "@, plain_style())
            &&& row[2].0 == "Result"@
            &&& marked ==> row[2].1 == mark
            &&& !marked ==> row[2].1 == plain_style()
            &&& mark.bold && mark.bg == Some(Color::DarkGray) && mark.fg is None
            &&& !mark.dim && !mark.underlined && !mark.reversed
        }),
{
}

/// The line of the list is as long as the list, but for a column at either side.
pub proof fn law_separator_leaves_a_column_at_each_side(inner_width: nat)
    ensures
        ({
            let row = separator_row(inner_width);
            &&& row.len() == 1
            &&& row[0].1 == colored(Color::DarkGray)
            &&& inner_width >= 2 ==> row[0].0.len() + 2 == inner_width
            &&& inner_width < 2 ==> row[0].0.len() == 0
            &&& forall|i: int| 0 <= i < row[0].0.len() ==> #[trigger] row[0].0[i] == '─'
        }),
{
}

// ---------------------------------------------------------------------------
// The preview

/// The title of the preview tells the name, the status, the process of a pull that runs, and the
/// time where it is known.
pub proof fn law_preview_title_tells_the_pull(
    name: Seq<char>,
    status: RepoStatus,
    elapsed: Option<Seq<char>>,
)
    ensures
        ({
            let process = match status {
                RepoStatus::Running { pid } => "pid "@ + decimal(pid as nat),
                _ => "pid —"@,
            };
            let head = " "@ + name + " · "@ + status_word_of(status) + " · "@ + process;
            match elapsed {
                Some(elapsed) => preview_title(name, status, Some(elapsed)) == head + (" · "@
                    + elapsed + "s"@) + " "@,
                None => preview_title(name, status, None) == head + " "@,
            }
        }),
{
    let process = match status {
        RepoStatus::Running { pid } => "pid "@ + decimal(pid as nat),
        _ => "pid —"@,
    };
    let head = " "@ + name + " · "@ + status_word_of(status) + " · "@ + process;
    assert(head + Seq::<char>::empty() =~= head);
}

/// The time of a pull is what it took where it is over, and else what has passed since it began;
/// of one that has not begun it is not known.
pub proof fn law_pull_time_runs_until_the_end(repo: RepoView, now: Elapsed)
    ensures
        repo.elapsed matches Some(elapsed) ==> pull_time(repo, now) == Some(elapsed.total_nanos()),
        repo.elapsed is None && repo.start is None ==> pull_time(repo, now) is None,
        repo.elapsed is None ==> (repo.start matches Some(start) ==> pull_time(repo, now) == Some(
            if now.total_nanos() > start.total_nanos() {
                now.total_nanos() - start.total_nanos()
            } else {
                0
            },
        )),
{
}

/// A scroll is kept where the text still fills the window behind it, and otherwise goes to the
/// end of the text.
pub proof fn law_scroll_is_kept_inside_the_text(scroll: nat, lines: nat, height: nat)
    ensures
        scroll + height <= lines ==> clamped_scroll(scroll, lines, height) == scroll,
        scroll + height > lines ==> clamped_scroll(scroll, lines, height) == bottom_scroll(
            lines,
            height,
        ),
        lines >= height ==> bottom_scroll(lines, height) + height == lines,
        lines < height ==> bottom_scroll(lines, height) == 0,
{
}

/// A log that is followed is shown to its end; any other where it was scrolled to.
pub proof fn law_log_is_followed_or_stays(repo: RepoView, height: nat)
    ensures
        repo.auto_scroll ==> log_scroll(repo, height) == bottom_scroll(repo.log.len(), height),
        !repo.auto_scroll ==> log_scroll(repo, height) == clamped_scroll(
            repo.preview_scroll as nat,
            repo.log.len(),
            height,
        ),
{
}

/// The preview shows the summary where it is laid over, or where the selection is behind the last
/// repository, from its first line; otherwise the log of the repository that is selected.
pub proof fn law_preview_shows_summary_or_log(
    app: AppState,
    height: nat,
    elapsed: Option<Seq<char>>,
)
    ensures
        ({
            let shown = preview_shown(app, height, elapsed);
            let listed = app.visible();
            let summary = app.result_overlay || app.selected >= listed.len();
            &&& shows_result(app) == summary
            &&& shown.border.fg == Some(
                if app.preview_focused {
                    Color::White
                } else {
                    Color::DarkGray
                },
            )
            &&& shown.border == colored(shown.border.fg->0)
            &&& summary ==> {
                let lines = summary_of(app);
                &&& shown.title == " Result "@
                &&& shown.scroll == 0
                &&& shown.lines.len() == lines.len()
                &&& forall|i: int|
                    0 <= i < lines.len() ==> #[trigger] shown.lines[i] == line_runs(lines[i])
            }
            &&& !summary ==> {
                let repo = app.repos.deep_view()[listed[app.selected as int] as int];
                &&& shown.title == preview_title(repo.name, repo.status, elapsed)
                &&& shown.scroll == log_scroll(repo, height) % 0x1_0000
                &&& shown.lines.len() == repo.log.len()
                &&& forall|i: int|
                    0 <= i < repo.log.len() ==> #[trigger] shown.lines[i] == line_runs(repo.log[i])
            }
        }),
{
}

// ---------------------------------------------------------------------------
// The status bar and the panes

/// The first row of the status bar shows what is typed while the filter is typed, and else the
/// filter, where there is one, before the keys.
pub proof fn law_status_bar_shows_the_filter(filter: Seq<char>)
    ensures
        ({
            let keys =
                "j/k ↑/↓ move · g/G top/end · click select · wheel scroll · space result · ? help"@;
            &&& status_row1(Some(filter), true) == "Filter: "@ + filter
            &&& status_row1(None, true) == "Filter: "@
            &&& filter.len() > 0 ==> status_row1(Some(filter), false) == "["@ + filter + "] "@ + keys
            &&& filter.len() == 0 ==> status_row1(Some(filter), false) == keys
            &&& status_row1(None, false) == keys
        }),
{
    let keys = "j/k ↑/↓ move · g/G top/end · click select · wheel scroll · space result · ? help"@;
    assert(Seq::<char>::empty() + keys =~= keys);
    assert("Filter: "@ + Seq::<char>::empty() =~= "Filter: "@);
}

/// A key that can be used is shown in gray, and one that cannot is dimmed.
pub proof fn law_unusable_keys_are_dimmed(active: bool)
    ensures
        key_style(active).dim == !active,
        key_style(active).fg == Some(
            if active {
                Color::Gray
            } else {
                Color::DarkGray
            },
        ),
        key_style(active).bg is None,
        !key_style(active).bold && !key_style(active).underlined && !key_style(active).reversed,
{
}

/// The second row of the status bar shows each key by whether it can be used, and the numbers
/// behind them.
pub proof fn law_keys_are_shown_by_use(
    retry_one: bool,
    retry_all: bool,
    refetch_one: bool,
    refetch_all: bool,
    jobs: nat,
    done: nat,
    total: nat,
    running: nat,
    elapsed: Seq<char>,
)
    ensures
        ({
            let stats = stats_text(jobs, done, total, running, elapsed);
            let row = status_row2(retry_one, retry_all, refetch_one, refetch_all, stats);
            let hint = colored(Color::DarkGray);
            &&& row.len() == 9
            &&& row[0] == ("r"@, key_style(retry_one))
            &&& row[1] == ("/"@, hint)
            &&& row[2] == ("R"@, key_style(retry_all))
            &&& row[3] == (" retry · "@, hint)
            &&& row[4] == ("f"@, key_style(refetch_one))
            &&& row[5] == ("/"@, hint)
            &&& row[6] == ("F"@, key_style(refetch_all))
            &&& row[7] == (" refetch · / filter · [ ] / drag resize · tab focus · q quit"@, hint)
            &&& row[8] == (stats, hint)
            &&& stats == "  ·  "@ + decimal(jobs) + " jobs · "@ + decimal(done) + "/"@ + decimal(
                total,
            ) + " done · "@ + decimal(running) + " running · "@ + elapsed + "s"@
        }),
{
}

/// A repository can be retried if it failed or was skipped, and pulled again if its pull is over:
/// the selected one by the first key, any by the second. The numbers of the status bar are those
/// of the repositories: how many jobs there may be, how many pulls are over, how many repositories
/// there are, and how many pulls run.
pub proof fn law_keys_can_be_used_by_status(
    app: AppState,
    elapsed: Seq<char>,
    retry_all: bool,
    refetch_all: bool,
)
    requires
        !retry_all <==> forall|i: int|
            0 <= i < app.repos@.len() ==> !((#[trigger] app.repos@[i]).status is Failed)
                && !(app.repos@[i].status is Skipped),
        !refetch_all <==> forall|i: int|
            0 <= i < app.repos@.len() ==> (#[trigger] app.repos@[i]).status is Queued
                || app.repos@[i].status is Running,
    ensures
        ({
            let statuses = app.repos@.map_values(|repo: RepoState| repo.status);
            let one = match app.selected_repo() {
                Some(i) => Some(app.repos@[i as int].status),
                None => None,
            };
            status_row2_of(app, elapsed) == status_row2(
                one == Some(RepoStatus::Failed) || one == Some(RepoStatus::Skipped),
                retry_all,
                one is Some && !(one->0 is Queued) && !(one->0 is Running),
                refetch_all,
                stats_text(
                    app.max_jobs as nat,
                    status_count(statuses, |s: RepoStatus| s.is_over()),
                    app.repos@.len(),
                    status_count(statuses, |s: RepoStatus| s is Running),
                    elapsed,
                ),
            )
        }),
{
    let statuses = app.repos@.map_values(|repo: RepoState| repo.status);
    assert(statuses_of(app.repos@) =~= statuses);
    let any_retry = exists|i: int|
        0 <= i < app.repos@.len() && ((#[trigger] app.repos@[i]).status is Failed
            || app.repos@[i].status is Skipped);
    let any_over = exists|i: int|
        0 <= i < app.repos@.len() && (#[trigger] app.repos@[i]).status.is_over();
    assert(any_retry == retry_all);
    assert(any_over == refetch_all);
}

/// The list is as wide as is asked for, but at least one column, and leaves one to the preview
/// where there are two.
pub proof fn law_list_leaves_a_column(wanted: u16, width: u16)
    ensures
        1 <= wanted && wanted < width ==> list_width(wanted, width) == wanted,
        wanted == 0 ==> list_width(wanted, width) == 1,
        wanted >= width && width >= 2 ==> list_width(wanted, width) == width - 1,
        width < 2 ==> list_width(wanted, width) == 1,
{
}

/// Where there is one column alone, the list has it.
pub proof fn law_list_has_the_only_column(main: Rect, wanted: u16)
    requires
        main.fits(),
        main.width <= 1,
    ensures
        panes(main, wanted).0.width == main.width,
        panes(main, wanted).1.width == 0,
{
}

// ---------------------------------------------------------------------------
// The help

/// A line of the help is a header, text, or a label and an address; only the last opens anything.
pub proof fn law_help_line_by_its_kind(text: Seq<char>, url: Seq<char>)
    ensures
        ({
            let header = fixed_item(HelpKind::Header, text, url);
            let plain = fixed_item(HelpKind::Plain, text, url);
            let link = fixed_item(HelpKind::Link, text, url);
            &&& header.1 is None && header.0.len() == 1
            &&& header.0[0].0 == text && header.0[0].1.bold && header.0[0].1.fg == Some(
                Color::Yellow,
            )
            &&& plain.1 is None && plain.0 == seq![(text, plain_style())]
            &&& link.1 == Some(url) && link.0.len() == 2
            &&& link.0[0] == (left_aligned(text, 9), colored(Color::Gray))
            &&& link.0[1].0 == url && link.0[1].1.underlined && link.0[1].1.fg == Some(Color::Cyan)
            &&& header.0[0].1.bg is None && !header.0[0].1.dim && !header.0[0].1.underlined
                && !header.0[0].1.reversed
            &&& link.0[1].1.bg is None && !link.0[1].1.dim && !link.0[1].1.bold
                && !link.0[1].1.reversed
        }),
{
}

/// The names of the help are filled up to the longest, but to no more than thirty characters.
pub proof fn law_name_column_holds_the_names(names: Seq<Seq<char>>)
    ensures
        name_column(names) <= 30,
        forall|i: int|
            0 <= i < names.len() ==> (#[trigger] names[i]).len() <= name_column(names)
                || name_column(names) == 30,
        name_column(names) == 0 || exists|i: int|
            0 <= i < names.len() && (#[trigger] names[i]).len() >= name_column(names),
    decreases names.len(),
{
    if names.len() > 0 {
        let rest = names.drop_last();
        let last = names.len() - 1;
        law_name_column_holds_the_names(rest);
        assert forall|i: int| 0 <= i < names.len() implies (#[trigger] names[i]).len()
            <= name_column(names) || name_column(names) == 30 by {
            if i < last {
                assert(rest[i] == names[i]);
            }
        }
        if name_column(names) != 0 && names[last].len() < name_column(names) {
            let i = choose|i: int|
                0 <= i < rest.len() && (#[trigger] rest[i]).len() >= name_column(rest);
            assert(names[i] == rest[i]);
        }
    }
}

/// The row of a repository in the help shows its name, its branch and its address, and opens the
/// address where it has one.
pub proof fn law_help_row_opens_the_address(repo: RepoView, name_pad: nat)
    ensures
        ({
            let (row, url) = repo_item(repo, name_pad);
            let branch = match repo.branch {
                Some(branch) => branch,
                None => "?"@,
            };
            &&& url == repo.remote_url
            &&& row.len() == 3
            &&& row[0] == ("  "@ + left_aligned(repo.name, name_pad) + "  "@, colored(Color::Gray))
            &&& row[1] == (left_aligned(branch, 16), colored(Color::Cyan))
            &&& repo.remote_url matches Some(address) ==> row[2].0 == address
                && row[2].1.underlined && row[2].1.fg == Some(Color::Cyan)
            &&& repo.remote_url is None ==> row[2] == ("(no remote)"@, colored(Color::DarkGray))
        }),
{
}

/// The help is its fixed lines and then a row for each repository, in their order.
pub proof fn law_help_lists_every_repo(repos: Seq<RepoState>)
    ensures
        ({
            let items = help_items(repos);
            let names = repos.map_values(|repo: RepoState| repo.name@);
            let fixed = HELP_LINES@.len();
            &&& items.len() == fixed + repos.len()
            &&& forall|i: int|
                0 <= i < fixed ==> #[trigger] items[i] == fixed_item(
                    HELP_LINES@[i].0,
                    HELP_LINES@[i].1@,
                    HELP_LINES@[i].2@,
                )
            &&& forall|i: int|
                0 <= i < repos.len() ==> #[trigger] items[fixed + i] == repo_item(
                    repos[i].deep_view(),
                    name_column(names),
                )
        }),
{
    let names = repos.map_values(|repo: RepoState| repo.name@);
    assert(names_of(repos) =~= names);
    let items = help_items(repos);
    let fixed = HELP_LINES@.len();
    assert(fixed_items().len() == fixed);
    assert forall|i: int| 0 <= i < repos.len() implies #[trigger] items[fixed + i] == repo_item(
        repos[i].deep_view(),
        name_column(names),
    ) by {
        assert(items[fixed + i] == items[fixed_items().len() + i]);
    }
}

/// The help is four columns narrower and two rows lower than the screen, but no wider than 110
/// columns, and asks for at least 40 columns and 8 rows; it stands in the middle.
pub proof fn law_help_has_a_margin(area: Rect)
    ensures
        44 <= area.width <= 114 ==> help_width(area) + 4 == area.width,
        area.width > 114 ==> help_width(area) == 110,
        area.width < 44 ==> help_width(area) == 40,
        area.height >= 10 ==> help_height(area) + 2 == area.height,
        area.height < 10 ==> help_height(area) == 8,
        help_modal(area) == centered(help_width(area), help_height(area), area),
{
}

/// The window of the help shows the items from the first on, one for one, as many as fit.
pub proof fn law_help_window_shows_items_in_order(
    items: Seq<(LineRuns, Option<Seq<char>>)>,
    first: int,
    height: int,
)
    requires
        0 <= first <= items.len(),
        height >= 0,
    ensures
        ({
            let window = help_window(items, first, height);
            &&& first + height <= items.len() ==> window.len() == height
            &&& first + height > items.len() ==> window.len() == items.len() - first
            &&& forall|k: int| 0 <= k < window.len() ==> #[trigger] window[k] == items[first + k]
            &&& item_lines(window).len() == window.len()
            &&& forall|k: int|
                0 <= k < window.len() ==> #[trigger] item_lines(window)[k] == window[k].0
        }),
{
}

/// Every row of the help that has an address opens it: the row at the item's place below the top.
pub proof fn law_every_address_can_be_opened(
    items: Seq<(LineRuns, Option<Seq<char>>)>,
    item: (LineRuns, Option<Seq<char>>),
    top: int,
)
    ensures
        item_links(Seq::empty(), top).len() == 0,
        item_links(items.push(item), top) == (match item.1 {
            Some(url) => item_links(items, top).push(((top + items.len()) as u16, url)),
            None => item_links(items, top),
        }),
{
    assert(items.push(item).drop_last() =~= items);
}

/// What is shown of the help begins at the scroll, which is kept inside the help.
pub proof fn law_help_is_shown_from_the_scroll(repos: Seq<RepoState>, scroll: usize, area: Rect)
    ensures
        ({
            let items = help_items(repos);
            let height = inside_border(help_modal(area)).height;
            let first = clamped_scroll(scroll as nat, items.len(), height as nat) as int;
            let shown = help_shown(repos, scroll, area);
            &&& shown.len() <= height
            &&& forall|k: int| 0 <= k < shown.len() ==> #[trigger] shown[k] == items[first + k]
            &&& items.len() <= height ==> shown == items
            &&& items.len() > height ==> shown.len() == height
        }),
{
    let items = help_items(repos);
    assert(items.subrange(0, items.len() as int) =~= items);
}

} // verus!

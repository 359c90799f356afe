//! What the dashboard shows: the list, the preview, the result summary and the status bar, as
//! styled text, and where on the screen they stand.

use vstd::prelude::*;
use vstd::string::*;

use crate::app::{
    names_of, statuses_of, status_count, AppState, LogBuffer, Rect, RepoState, RepoStatus,
    RepoView, WorktreeEntry, RING_BUFFER_CAPACITY,
};
use crate::elapsed::Elapsed;
use crate::number::{align_left, decimal, decimal_text, left_aligned, repeat_char, repeated};
use crate::outside::{
    area_split, block_inner, inside_border, least, seconds_text, split_area, SizeRule,
};
use crate::style::{
    ansi_line, colored, in_color, line_runs, narrowed, plain_style, styled, truncate_str, Color,
    StyledText, TextStyle,
};
use crate::text::{byte_len, byte_len_of, join, joined_with};

verus! {

// ---------------------------------------------------------------------------
// Glyphs

/// The frames of the spinner of a pull that is running.
pub const SPINNER_FRAMES: [&'static str; 4] = ["◐", "◓", "◑", "◒"];

/// The glyph of a status.
pub open spec fn glyph_of(status: RepoStatus, tick: u64) -> (Seq<char>, TextStyle) {
    match status {
        RepoStatus::Queued => ("◯"@, colored(Color::DarkGray)),
        RepoStatus::Running { .. } => (
            SPINNER_FRAMES@[(tick / 2) as int % 4]@,
            colored(Color::Yellow),
        ),
        RepoStatus::UpToDate => ("◌"@, colored(Color::Gray)),
        RepoStatus::Updated => ("✓"@, colored(Color::Green)),
        RepoStatus::Skipped => ("⊘"@, colored(Color::DarkGray)),
        RepoStatus::Failed => ("✗"@, colored(Color::Red)),
    }
}

/// The glyph of a status; that of a running pull turns with the ticks.
pub fn status_glyph_colored(status: &RepoStatus, tick: u64) -> (glyph: StyledText)
    ensures
        glyph.deep_view() == glyph_of(*status, tick),
{
    match status {
        RepoStatus::Queued => styled("◯", in_color(Color::DarkGray)),
        RepoStatus::Running { .. } => {
            let frame: usize = ((tick / 2) % 4) as usize;
            styled(SPINNER_FRAMES[frame], in_color(Color::Yellow))
        },
        RepoStatus::UpToDate => styled("◌", in_color(Color::Gray)),
        RepoStatus::Updated => styled("✓", in_color(Color::Green)),
        RepoStatus::Skipped => styled("⊘", in_color(Color::DarkGray)),
        RepoStatus::Failed => styled("✗", in_color(Color::Red)),
    }
}

/// The style of the name of a repo.
pub open spec fn name_style_of(status: RepoStatus) -> TextStyle {
    match status {
        RepoStatus::Failed => colored(Color::Red),
        RepoStatus::Updated => colored(Color::Green),
        RepoStatus::Skipped => colored(Color::DarkGray),
        RepoStatus::Running { .. } => colored(Color::Yellow),
        _ => plain_style(),
    }
}

fn name_style(status: &RepoStatus) -> (style: TextStyle)
    ensures
        style == name_style_of(*status),
{
    match status {
        RepoStatus::Failed => in_color(Color::Red),
        RepoStatus::Updated => in_color(Color::Green),
        RepoStatus::Skipped => in_color(Color::DarkGray),
        RepoStatus::Running { .. } => in_color(Color::Yellow),
        _ => TextStyle::default(),
    }
}

/// The word for a status.
pub open spec fn status_word_of(status: RepoStatus) -> Seq<char> {
    match status {
        RepoStatus::Queued => "queued"@,
        RepoStatus::Running { .. } => "running"@,
        RepoStatus::UpToDate => "up-to-date"@,
        RepoStatus::Updated => "updated"@,
        RepoStatus::Skipped => "skipped"@,
        RepoStatus::Failed => "failed"@,
    }
}

/// The word for a status.
pub fn status_word(status: &RepoStatus) -> (word: &'static str)
    ensures
        word@ == status_word_of(*status),
{
    match status {
        RepoStatus::Queued => "queued",
        RepoStatus::Running { .. } => "running",
        RepoStatus::UpToDate => "up-to-date",
        RepoStatus::Updated => "updated",
        RepoStatus::Skipped => "skipped",
        RepoStatus::Failed => "failed",
    }
}

// ---------------------------------------------------------------------------
// The result summary

/// The length of the longest of some texts, in bytes, and at least `least_len`.
pub open spec fn longest_of(texts: Seq<Seq<char>>, least_len: nat) -> nat
    decreases texts.len(),
{
    if texts.len() == 0 {
        least_len
    } else {
        let before = longest_of(texts.drop_last(), least_len);
        let last = byte_len_of(texts.last());
        if last > before {
            last
        } else {
            before
        }
    }
}

fn longest_name(repos: &Vec<RepoState>, least_len: usize) -> (len: usize)
    ensures
        len == longest_of(names_of(repos@), least_len as nat),
{
    let ghost all = names_of(repos@);
    let mut len: usize = least_len;
    let mut i: usize = 0;
    assert(all.take(0) =~= Seq::empty());
    while i < repos.len()
        invariant
            i <= repos@.len(),
            all == names_of(repos@),
            len == longest_of(all.take(i as int), least_len as nat),
        decreases repos@.len() - i,
    {
        assert(all.take(i + 1).drop_last() =~= all.take(i as int));
        let name_len: usize = byte_len(repos[i].name.as_str());
        if name_len > len {
            len = name_len;
        }
        i = i + 1;
    }
    assert(all.take(i as int) =~= all);
    len
}

/// The repos that the worktrees belong to.
pub open spec fn owners_of(worktrees: Seq<(Seq<char>, Seq<char>)>) -> Seq<Seq<char>> {
    worktrees.map_values(|worktree: (Seq<char>, Seq<char>)| worktree.0)
}

fn longest_owner(worktrees: &Vec<WorktreeEntry>, least_len: usize) -> (len: usize)
    ensures
        len == longest_of(owners_of(worktrees.deep_view()), least_len as nat),
{
    let ghost all = owners_of(worktrees.deep_view());
    let mut len: usize = least_len;
    let mut i: usize = 0;
    assert(all.take(0) =~= Seq::empty());
    while i < worktrees.len()
        invariant
            i <= worktrees@.len(),
            all == owners_of(worktrees.deep_view()),
            len == longest_of(all.take(i as int), least_len as nat),
        decreases worktrees@.len() - i,
    {
        proof {
            assert(all.take(i + 1).drop_last() =~= all.take(i as int));
            assert(worktrees.deep_view()[i as int] == worktrees@[i as int].deep_view());
        }
        let name_len: usize = byte_len(worktrees[i].repo.as_str());
        if name_len > len {
            len = name_len;
        }
        i = i + 1;
    }
    assert(all.take(i as int) =~= all);
    len
}

/// The branch of a repo; "?" where it is not known.
pub open spec fn branch_or_question(branch: Option<Seq<char>>) -> Seq<char> {
    match branch {
        Some(branch) => branch,
        None => "?"@,
    }
}

fn known_branch(branch: &Option<String>) -> (text: String)
    ensures
        text@ == branch_or_question(branch.deep_view()),
{
    match branch {
        Some(branch) => branch.clone(),
        None => "?".to_string(),
    }
}

/// The name and branch of a repo, where it has this status.
pub open spec fn entry_with(repo: RepoView, status: RepoStatus) -> Option<(Seq<char>, Seq<char>)> {
    if repo.status == status {
        Some((repo.name, branch_or_question(repo.branch)))
    } else {
        None
    }
}

/// The names and branches of the repos with this status, in order.
pub open spec fn entries_with(repos: Seq<RepoView>, status: RepoStatus) -> Seq<
    (Seq<char>, Seq<char>),
> {
    repos.filter_map(|repo: RepoView| entry_with(repo, status))
}

fn repos_with(repos: &Vec<RepoState>, status: RepoStatus) -> (entries: Vec<(String, String)>)
    ensures
        entries.deep_view() == entries_with(repos.deep_view(), status),
{
    let ghost all = repos.deep_view();
    let ghost keep = |repo: RepoView| entry_with(repo, status);
    let mut entries: Vec<(String, String)> = Vec::new();
    let mut i: usize = 0;
    while i < repos.len()
        invariant
            i <= repos@.len(),
            all == repos.deep_view(),
            keep == (|repo: RepoView| entry_with(repo, status)),
            entries.deep_view() =~= all.take(i as int).filter_map(keep),
        decreases repos@.len() - i,
    {
        proof {
            assert(all[i as int] == repos@[i as int].deep_view());
            all.lemma_filter_map_take_succ(keep, i as int);
        }
        if repos[i].status == status {
            let ghost before = entries.deep_view();
            let entry = (repos[i].name.clone(), known_branch(&repos[i].branch));
            let ghost one = entry.deep_view();
            entries.push(entry);
            assert(entries.deep_view() =~= before.push(one));
        }
        i = i + 1;
    }
    assert(all.take(i as int) =~= all);
    entries
}

/// The line of a section for a repo and a branch.
pub open spec fn section_line(entry: (Seq<char>, Seq<char>), pad: nat) -> Seq<char> {
    "   - "@ + left_aligned(entry.0, pad) + "  "@ + entry.1
}

/// A section of the summary: an empty line, its header and its entries, where there are any.
pub open spec fn section(
    header: Seq<char>,
    entries: Seq<(Seq<char>, Seq<char>)>,
    pad: nat,
) -> Seq<Seq<char>> {
    if entries.len() == 0 {
        Seq::empty()
    } else {
        seq![Seq::<char>::empty(), header] + entries.map_values(
            |entry: (Seq<char>, Seq<char>)| section_line(entry, pad),
        )
    }
}

fn push_section(
    lines: &mut Vec<String>,
    header: &str,
    entries: &Vec<(String, String)>,
    pad: usize,
)
    ensures
        final(lines).deep_view() == old(lines).deep_view() + section(
            header@,
            entries.deep_view(),
            pad as nat,
        ),
{
    let ghost all = entries.deep_view();
    let ghost before = lines.deep_view();
    if entries.len() == 0 {
        assert(all.len() == 0);
        assert(lines.deep_view() =~= before + section(header@, all, pad as nat));
        return ;
    }
    let ghost show = |entry: (Seq<char>, Seq<char>)| section_line(entry, pad as nat);
    let ghost top = seq![Seq::<char>::empty(), header@];
    let none = String::new();
    assert(none@ =~= Seq::<char>::empty());
    lines.push(none);
    lines.push(header.to_string());
    assert(lines.deep_view() =~= before + top);
    let mut i: usize = 0;
    while i < entries.len()
        invariant
            i <= entries@.len(),
            all == entries.deep_view(),
            show == (|entry: (Seq<char>, Seq<char>)| section_line(entry, pad as nat)),
            lines.deep_view() =~= before + top + all.take(i as int).map_values(show),
        decreases entries@.len() - i,
    {
        assert(all[i as int] == entries@[i as int].deep_view());
        let ghost now = lines.deep_view();
        let line = "   - ".to_string().concat(
            align_left(entries[i].0.as_str(), pad).as_str(),
        ).concat("  ").concat(entries[i].1.as_str());
        let ghost one = line@;
        lines.push(line);
        assert(lines.deep_view() =~= now.push(one));
        i = i + 1;
    }
    assert(all.take(i as int) =~= all);
    assert(lines.deep_view() =~= before + section(header@, all, pad as nat));
}

/// A count and what it counts, where there is anything.
pub open spec fn count_part(count: nat, what: Seq<char>) -> Seq<Seq<char>> {
    if count > 0 {
        seq![decimal(count) + what]
    } else {
        Seq::empty()
    }
}

fn push_count(parts: &mut Vec<String>, count: usize, what: &str)
    ensures
        final(parts).deep_view() == old(parts).deep_view() + count_part(count as nat, what@),
{
    let ghost before = parts.deep_view();
    if count > 0 {
        let part = decimal_text(count as u64).concat(what);
        let ghost one = part@;
        parts.push(part);
        assert(parts.deep_view() =~= before.push(one));
    }
    assert(parts.deep_view() =~= before + count_part(count as nat, what@));
}

/// How many pulls came to what: updated, up to date, skipped and failed.
pub open spec fn count_parts(updated: nat, up_to_date: nat, skipped: nat, failed: nat) -> Seq<
    Seq<char>,
> {
    count_part(updated, " updated"@) + count_part(up_to_date, " up-to-date"@) + count_part(
        skipped,
        " skipped"@,
    ) + count_part(failed, " failed"@)
}

/// The line of the summary with the counts.
pub open spec fn total_line(updated: nat, up_to_date: nat, skipped: nat, failed: nat) -> Seq<char> {
    "   "@ + decimal(updated + up_to_date + skipped + failed) + " total: "@ + joined_with(
        count_parts(updated, up_to_date, skipped, failed),
        ", "@,
    )
}

/// The lines of the result summary.
pub open spec fn result_lines(
    repos: Seq<RepoView>,
    worktrees: Seq<(Seq<char>, Seq<char>)>,
    updated: nat,
    up_to_date: nat,
    skipped: nat,
    failed: nat,
    pad: nat,
) -> Seq<Seq<char>> {
    let head = seq!["Pull completed!"@, Seq::<char>::empty()];
    if updated + up_to_date + skipped + failed == 0 {
        head.push("   No git repositories found."@)
    } else {
        head.push(total_line(updated, up_to_date, skipped, failed)) + section(
            "+ Updated repositories:"@,
            entries_with(repos, RepoStatus::Updated),
            pad,
        ) + section(
            "= Unchanged repositories:"@,
            entries_with(repos, RepoStatus::UpToDate),
            pad,
        ) + section(
            "! Skipped repositories (uncommitted changes):"@,
            entries_with(repos, RepoStatus::Skipped),
            pad,
        ) + section("x Failed repositories:"@, entries_with(repos, RepoStatus::Failed), pad)
            + section("> Active worktrees:"@, worktrees, pad)
    }
}

/// The lines of the result summary of a dashboard.
pub open spec fn summary_of(app: AppState) -> Seq<Seq<char>> {
    let statuses = statuses_of(app.repos@);
    result_lines(
        app.repos.deep_view(),
        app.worktrees.deep_view(),
        status_count(statuses, |s: RepoStatus| s is Updated),
        status_count(statuses, |s: RepoStatus| s is UpToDate),
        status_count(statuses, |s: RepoStatus| s is Skipped),
        status_count(statuses, |s: RepoStatus| s is Failed),
        longest_of(
            owners_of(app.worktrees.deep_view()),
            longest_of(names_of(app.repos@), 0),
        ),
    )
}

fn worktree_pairs(worktrees: &Vec<WorktreeEntry>) -> (pairs: Vec<(String, String)>)
    ensures
        pairs.deep_view() == worktrees.deep_view(),
{
    let mut pairs: Vec<(String, String)> = Vec::new();
    let mut i: usize = 0;
    while i < worktrees.len()
        invariant
            i <= worktrees@.len(),
            pairs.deep_view() =~= worktrees.deep_view().take(i as int),
        decreases worktrees@.len() - i,
    {
        assert(worktrees.deep_view()[i as int] == worktrees@[i as int].deep_view());
        let ghost before = pairs.deep_view();
        let pair = (worktrees[i].repo.clone(), worktrees[i].branch.clone());
        let ghost one = pair.deep_view();
        pairs.push(pair);
        assert(pairs.deep_view() =~= before.push(one));
        i = i + 1;
    }
    pairs
}

/// The lines of the result summary: the counts, the repos by what their pulls came to, and the
/// worktrees.
pub fn build_result_summary(app: &AppState) -> (lines: Vec<String>)
    ensures
        lines.deep_view() == summary_of(*app),
{
    let (_, _, updated, up_to_date, skipped, failed) = app.counts();
    let total: usize = app.done_count();
    let repo_total: usize = app.repos.len();
    assert(updated + up_to_date + skipped + failed <= repo_total);
    proof {
        crate::app::lemma_over_count(statuses_of(app.repos@));
    }
    let none = String::new();
    assert(none@ =~= Seq::<char>::empty());
    let mut lines = vec!["Pull completed!".to_string(), none];
    let ghost head = seq!["Pull completed!"@, Seq::<char>::empty()];
    assert(lines.deep_view() =~= head);
    if total == 0 {
        lines.push("   No git repositories found.".to_string());
        assert(lines.deep_view() =~= head.push("   No git repositories found."@));
        return lines;
    }
    let mut parts: Vec<String> = Vec::new();
    assert(parts.deep_view() =~= Seq::<Seq<char>>::empty());
    push_count(&mut parts, updated, " updated");
    push_count(&mut parts, up_to_date, " up-to-date");
    push_count(&mut parts, skipped, " skipped");
    push_count(&mut parts, failed, " failed");
    assert(parts.deep_view() =~= count_parts(
        updated as nat,
        up_to_date as nat,
        skipped as nat,
        failed as nat,
    ));
    let line = "   ".to_string().concat(decimal_text(total as u64).as_str()).concat(
        " total: ",
    ).concat(join(&parts, ", ").as_str());
    let ghost one = line@;
    lines.push(line);
    assert(lines.deep_view() =~= head.push(one));
    let pad: usize = longest_owner(&app.worktrees, longest_name(&app.repos, 0));
    push_section(
        &mut lines,
        "+ Updated repositories:",
        &repos_with(&app.repos, RepoStatus::Updated),
        pad,
    );
    push_section(
        &mut lines,
        "= Unchanged repositories:",
        &repos_with(&app.repos, RepoStatus::UpToDate),
        pad,
    );
    push_section(
        &mut lines,
        "! Skipped repositories (uncommitted changes):",
        &repos_with(&app.repos, RepoStatus::Skipped),
        pad,
    );
    push_section(
        &mut lines,
        "x Failed repositories:",
        &repos_with(&app.repos, RepoStatus::Failed),
        pad,
    );
    push_section(&mut lines, "> Active worktrees:", &worktree_pairs(&app.worktrees), pad);
    lines
}

// ---------------------------------------------------------------------------
// The list

/// A line of styled text.
pub type StyledLine = Vec<StyledText>;

/// What a `StyledLine` shows.
pub type LineRuns = Seq<(Seq<char>, TextStyle)>;

/// What the list pane shows.
pub struct ListView {
    pub title: String,
    /// The rows: the repos, a separator and the Result.
    pub rows: Vec<StyledLine>,
    /// The row that is selected.
    pub selected: usize,
}

/// What a `ListView` holds.
#[verifier::ext_equal]
pub struct ListShown {
    pub title: Seq<char>,
    pub rows: Seq<LineRuns>,
    pub selected: usize,
}

impl DeepView for ListView {
    type V = ListShown;

    open spec fn deep_view(&self) -> ListShown {
        ListShown {
            title: self.title@,
            rows: self.rows.deep_view(),
            selected: self.selected,
        }
    }
}

/// The title of the list pane; `elapsed` is the time since the start in seconds.
pub open spec fn list_title(done: nat, total: nat, elapsed: Seq<char>) -> Seq<char> {
    " pull-all · "@ + decimal(done) + "/"@ + decimal(total) + " · "@ + elapsed + "s "@
}

/// The row of a repo.
pub open spec fn repo_row(
    repo: RepoView,
    tick: u64,
    name_width: nat,
    branch_width: usize,
) -> LineRuns {
    seq![
        glyph_of(repo.status, tick),
        (" "@, plain_style()),
        (left_aligned(repo.name, name_width), name_style_of(repo.status)),
        (" "@, plain_style()),
        (
            narrowed(
                match repo.branch {
                    Some(branch) => branch,
                    None => "—"@,
                },
                branch_width,
            ),
            colored(Color::Cyan),
        ),
    ]
}

/// The columns that are left for the branch: at least one.
pub open spec fn branch_columns(inner_width: nat, name_width: nat) -> usize {
    if inner_width >= name_width + 6 {
        (inner_width - name_width - 5) as usize
    } else {
        1
    }
}

/// The style of what is selected.
pub open spec fn selection_style() -> TextStyle {
    TextStyle { bg: Some(Color::DarkGray), bold: true, ..plain_style() }
}

/// The row of the Result; `marked` where it is selected.
pub open spec fn result_row(all_done: bool, failed: nat, marked: bool) -> LineRuns {
    seq![
        if !all_done {
            ("—"@, colored(Color::DarkGray))
        } else if failed > 0 {
            ("✗"@, colored(Color::Red))
        } else {
            ("✓"@, colored(Color::Green))
        },
        (" "@, plain_style()),
        (
            "Result"@,
            if marked {
                selection_style()
            } else {
                plain_style()
            },
        ),
    ]
}

/// The row between the repos and the Result.
pub open spec fn separator_row(inner_width: nat) -> LineRuns {
    seq![
        (
            repeated(
                '─',
                if inner_width >= 2 {
                    (inner_width - 2) as nat
                } else {
                    0
                },
            ),
            colored(Color::DarkGray),
        ),
    ]
}

/// What the list pane shows; `elapsed` is the time since the start in seconds.
pub open spec fn list_shown(app: AppState, inner_width: u16, tick: u64, elapsed: Seq<char>) -> ListShown {
    let statuses = statuses_of(app.repos@);
    let name_width = longest_of(names_of(app.repos@), 10);
    let branch_width = branch_columns(inner_width as nat, name_width);
    let visible = app.visible();
    ListShown {
        title: list_title(
            status_count(statuses, |s: RepoStatus| s.is_over()),
            app.repos@.len(),
            elapsed,
        ),
        rows: visible.map_values(
            |i: usize| repo_row(app.repos.deep_view()[i as int], tick, name_width, branch_width),
        ).push(separator_row(inner_width as nat)).push(
            result_row(
                app.all_done,
                status_count(statuses, |s: RepoStatus| s is Failed),
                app.selected >= visible.len(),
            ),
        ),
        selected: if app.selected < visible.len() {
            app.selected
        } else {
            (visible.len() + 1) as usize
        },
    }
}

fn build_repo_row(repo: &RepoState, tick: u64, name_width: usize, branch_width: usize) -> (row:
    StyledLine)
    ensures
        row.deep_view() == repo_row(repo.deep_view(), tick, name_width as nat, branch_width),
{
    let name = align_left(repo.name.as_str(), name_width);
    let branch = match &repo.branch {
        Some(branch) => truncate_str(branch.as_str(), branch_width),
        None => truncate_str("—", branch_width),
    };
    vec![
        status_glyph_colored(&repo.status, tick),
        styled(" ", TextStyle::default()),
        styled(name.as_str(), name_style(&repo.status)),
        styled(" ", TextStyle::default()),
        styled(branch.as_str(), in_color(Color::Cyan)),
    ]
}

fn build_result_row(all_done: bool, failed: usize, marked: bool) -> (row: StyledLine)
    ensures
        row.deep_view() == result_row(all_done, failed as nat, marked),
{
    let glyph = if !all_done {
        styled("—", in_color(Color::DarkGray))
    } else if failed > 0 {
        styled("✗", in_color(Color::Red))
    } else {
        styled("✓", in_color(Color::Green))
    };
    let style = if marked {
        TextStyle { bg: Some(Color::DarkGray), bold: true, ..TextStyle::default() }
    } else {
        TextStyle::default()
    };
    let ghost first = glyph.deep_view();
    let row = vec![glyph, styled(" ", TextStyle::default()), styled("Result", style)];
    assert(row.deep_view() =~= seq![first, (" "@, plain_style()), ("Result"@, style)]);
    row
}

/// What the list pane shows; `elapsed` is the time since the start in seconds.
pub fn build_list(app: &AppState, inner_width: u16, tick: u64, elapsed: &str) -> (view: ListView)
    requires
        app.repos@.len() < usize::MAX,
    ensures
        view.deep_view() == list_shown(*app, inner_width, tick, elapsed@),
{
    let visible = app.visible_indices();
    let title = " pull-all · ".to_string().concat(
        decimal_text(app.done_count() as u64).as_str(),
    ).concat("/").concat(decimal_text(app.repos.len() as u64).as_str()).concat(" · ").concat(
        elapsed,
    ).concat("s ");
    let name_width: usize = longest_name(&app.repos, 10);
    let width: usize = inner_width as usize;
    let left: usize = width.saturating_sub(name_width).saturating_sub(5);
    let branch_width: usize = if left == 0 {
        1
    } else {
        left
    };
    assert(branch_width == branch_columns(inner_width as nat, name_width as nat));
    let ghost repos = app.repos.deep_view();
    let ghost show = |i: usize|
        repo_row(repos[i as int], tick, name_width as nat, branch_width);
    let mut rows: Vec<StyledLine> = Vec::new();
    let mut k: usize = 0;
    while k < visible.len()
        invariant
            k <= visible@.len(),
            repos == app.repos.deep_view(),
            show == (|i: usize| repo_row(repos[i as int], tick, name_width as nat, branch_width)),
            forall|j: int|
                0 <= j < visible@.len() ==> 0 <= #[trigger] visible@[j] < app.repos@.len(),
            rows.deep_view() =~= visible@.take(k as int).map_values(show),
        decreases visible@.len() - k,
    {
        let i: usize = visible[k];
        assert(repos[i as int] == app.repos@[i as int].deep_view());
        let ghost before = rows.deep_view();
        let row = build_repo_row(&app.repos[i], tick, name_width, branch_width);
        let ghost one = row.deep_view();
        rows.push(row);
        assert(rows.deep_view() =~= before.push(one));
        k = k + 1;
    }
    assert(visible@.take(k as int) =~= visible@);
    let ghost repo_rows = rows.deep_view();
    let line = repeat_char('─', width.saturating_sub(2));
    let separator = vec![styled(line.as_str(), in_color(Color::DarkGray))];
    assert(separator.deep_view() =~= separator_row(inner_width as nat));
    let ghost shown_separator = separator.deep_view();
    rows.push(separator);
    assert(rows.deep_view() =~= repo_rows.push(shown_separator));
    let (_, _, _, _, _, failed) = app.counts();
    let last = build_result_row(app.all_done, failed, app.selected >= visible.len());
    let ghost shown_last = last.deep_view();
    rows.push(last);
    assert(rows.deep_view() =~= repo_rows.push(shown_separator).push(shown_last));
    let selected: usize = if app.selected < visible.len() {
        app.selected
    } else {
        visible.len() + 1
    };
    let view = ListView { title, rows, selected };
    assert(view.deep_view() =~= list_shown(*app, inner_width, tick, elapsed@));
    view
}

/// What the list pane shows in `area`, so long after the start.
pub fn list_view(app: &AppState, area: Rect, tick: u64, elapsed: Elapsed) -> (view: ListView)
    requires
        app.repos@.len() < usize::MAX,
        elapsed.wf(),
    ensures
        view.deep_view() == list_shown(
            *app,
            inside_border(area).width,
            tick,
            seconds_text(elapsed.secs, elapsed.nanos, 1),
        ),
{
    let inner = block_inner(area);
    build_list(app, inner.width, tick, elapsed.tenths().as_str())
}

// ---------------------------------------------------------------------------
// The preview

/// What the preview pane shows.
pub struct PreviewView {
    pub title: String,
    pub border: TextStyle,
    pub lines: Vec<StyledLine>,
    /// The first line that is shown.
    pub scroll: u16,
}

/// What a `PreviewView` holds.
#[verifier::ext_equal]
pub struct PreviewShown {
    pub title: Seq<char>,
    pub border: TextStyle,
    pub lines: Seq<LineRuns>,
    pub scroll: u16,
}

impl DeepView for PreviewView {
    type V = PreviewShown;

    open spec fn deep_view(&self) -> PreviewShown {
        PreviewShown {
            title: self.title@,
            border: self.border,
            lines: self.lines.deep_view(),
            scroll: self.scroll,
        }
    }
}

/// The title of the preview of a repo; `elapsed` is the time of its pull in seconds, where it has
/// begun.
pub open spec fn preview_title(
    name: Seq<char>,
    status: RepoStatus,
    elapsed: Option<Seq<char>>,
) -> Seq<char> {
    " "@ + name + " · "@ + status_word_of(status) + " · "@ + (match status {
        RepoStatus::Running { pid } => "pid "@ + decimal(pid as nat),
        _ => "pid —"@,
    }) + (match elapsed {
        Some(elapsed) => " · "@ + elapsed + "s"@,
        None => Seq::empty(),
    }) + " "@
}

/// The title of the preview of a repo; `elapsed` is the time of its pull in seconds, where it has
/// begun.
pub fn build_preview_title(name: &str, status: &RepoStatus, elapsed: &Option<String>) -> (title:
    String)
    ensures
        title@ == preview_title(name@, *status, elapsed.deep_view()),
{
    let pid = match status {
        RepoStatus::Running { pid } => "pid ".to_string().concat(
            decimal_text(*pid as u64).as_str(),
        ),
        _ => "pid —".to_string(),
    };
    let time = match elapsed {
        Some(elapsed) => " · ".to_string().concat(elapsed.as_str()).concat("s"),
        None => {
            let none = String::new();
            assert(none@ =~= Seq::<char>::empty());
            none
        },
    };
    " ".to_string().concat(name).concat(" · ").concat(status_word(status)).concat(" · ").concat(
        pid.as_str(),
    ).concat(time.as_str()).concat(" ")
}

/// The time that the pull of a repo took, or has taken by `now`; none before it begins.
pub open spec fn pull_time(repo: RepoView, now: Elapsed) -> Option<int> {
    match repo.elapsed {
        Some(elapsed) => Some(elapsed.total_nanos()),
        None => match repo.start {
            Some(start) => Some(
                if now.total_nanos() >= start.total_nanos() {
                    now.total_nanos() - start.total_nanos()
                } else {
                    0
                },
            ),
            None => None,
        },
    }
}

/// The times of a repo are valid.
pub open spec fn times_fit(repo: RepoView) -> bool {
    &&& repo.elapsed matches Some(elapsed) ==> elapsed.wf()
    &&& repo.start matches Some(start) ==> start.wf()
}

/// The time that the pull of a repo took, or has taken by `now`; none before it begins.
pub fn time_of_pull(repo: &RepoState, now: Elapsed) -> (time: Option<Elapsed>)
    requires
        times_fit(repo.deep_view()),
        now.wf(),
    ensures
        match time {
            Some(time) => time.wf() && pull_time(repo.deep_view(), now) == Some(time.total_nanos()),
            None => pull_time(repo.deep_view(), now) is None,
        },
{
    match repo.elapsed {
        Some(elapsed) => Some(elapsed),
        None => match repo.start {
            Some(start) => Some(now.since(start)),
            None => None,
        },
    }
}

/// The first line that is shown where the last line is at the bottom.
pub open spec fn bottom_scroll(lines: nat, height: nat) -> nat {
    if lines >= height {
        (lines - height) as nat
    } else {
        0
    }
}

/// The first line that is shown: no further down than that the last line is at the bottom.
pub open spec fn clamped_scroll(scroll: nat, lines: nat, height: nat) -> nat {
    if scroll > bottom_scroll(lines, height) {
        bottom_scroll(lines, height)
    } else {
        scroll
    }
}

/// The first line that is shown of the log of a repo: while it follows the log, the last line is
/// at the bottom.
pub open spec fn log_scroll(repo: RepoView, height: nat) -> nat {
    if repo.auto_scroll {
        bottom_scroll(repo.log.len(), height)
    } else {
        clamped_scroll(repo.preview_scroll as nat, repo.log.len(), height)
    }
}

/// The first line that is shown: no further down than that the last line is at the bottom.
pub fn clamp_scroll(scroll: usize, lines: usize, height: usize) -> (first: usize)
    ensures
        first == clamped_scroll(scroll as nat, lines as nat, height as nat),
{
    let last: usize = lines.saturating_sub(height);
    if scroll > last {
        last
    } else {
        scroll
    }
}

/// The low 16 bits of a number.
pub open spec fn low_half(n: nat) -> u16 {
    (n % 0x1_0000) as u16
}

fn to_u16(n: usize) -> (low: u16)
    ensures
        low == low_half(n as nat),
{
    let wide: u64 = n as u64;
    assert(wide as u16 == wide % 0x1_0000) by (bit_vector);
    wide as u16
}

/// The lines of a text, with their escape codes read.
pub open spec fn ansi_lines_of(lines: Seq<Seq<char>>) -> Seq<LineRuns> {
    lines.map_values(|line: Seq<char>| line_runs(line))
}

fn ansi_lines(lines: &Vec<String>) -> (shown: Vec<StyledLine>)
    ensures
        shown.deep_view() == ansi_lines_of(lines.deep_view()),
{
    let ghost all = lines.deep_view();
    let mut shown: Vec<StyledLine> = Vec::new();
    let mut i: usize = 0;
    while i < lines.len()
        invariant
            i <= lines@.len(),
            all == lines.deep_view(),
            shown.deep_view() =~= ansi_lines_of(all.take(i as int)),
        decreases lines@.len() - i,
    {
        assert(all[i as int] == lines@[i as int]@);
        let ghost before = shown.deep_view();
        let line = ansi_line(lines[i].as_str());
        let ghost one = line.deep_view();
        shown.push(line);
        assert(shown.deep_view() =~= before.push(one));
        i = i + 1;
    }
    assert(all.take(i as int) =~= all);
    shown
}

fn log_lines(log: &LogBuffer) -> (lines: Vec<String>)
    ensures
        lines.deep_view() == log@,
{
    let kept = log.lines();
    let mut lines: Vec<String> = Vec::new();
    let mut i: usize = 0;
    while i < kept.len()
        invariant
            i <= kept@.len(),
            lines.deep_view() =~= kept.deep_view().take(i as int),
        decreases kept@.len() - i,
    {
        assert(kept.deep_view()[i as int] == kept@[i as int]@);
        let ghost before = lines.deep_view();
        let line = kept[i].clone();
        let ghost one = line@;
        lines.push(line);
        assert(lines.deep_view() =~= before.push(one));
        i = i + 1;
    }
    lines
}

/// The preview shows the result summary rather than a repo.
pub open spec fn shows_result(app: AppState) -> bool {
    app.result_overlay || app.selected >= app.visible().len()
}

/// The border of the preview pane: it shows where the focus is.
pub open spec fn preview_border(focused: bool) -> TextStyle {
    if focused {
        colored(Color::White)
    } else {
        colored(Color::DarkGray)
    }
}

/// What the preview pane shows in `height` lines; `elapsed` is the time of the selected repo's
/// pull in seconds, where it has begun.
pub open spec fn preview_shown(app: AppState, height: nat, elapsed: Option<Seq<char>>) -> PreviewShown {
    let border = preview_border(app.preview_focused);
    if shows_result(app) {
        let lines = summary_of(app);
        PreviewShown { title: " Result "@, border, lines: ansi_lines_of(lines), scroll: 0 }
    } else {
        let repo = app.repos.deep_view()[app.visible()[app.selected as int] as int];
        PreviewShown {
            title: preview_title(repo.name, repo.status, elapsed),
            border,
            lines: ansi_lines_of(repo.log),
            scroll: low_half(log_scroll(repo, height)),
        }
    }
}

/// What the preview pane shows in `height` lines; `elapsed` is the time of the selected repo's
/// pull in seconds, where it has begun.
pub fn build_preview(app: &AppState, height: u16, elapsed: &Option<String>) -> (view: PreviewView)
    ensures
        view.deep_view() == preview_shown(*app, height as nat, elapsed.deep_view()),
{
    let border = if app.preview_focused {
        in_color(Color::White)
    } else {
        in_color(Color::DarkGray)
    };
    let place = app.selected_repo_index();
    if !app.result_overlay {
        if let Some(i) = place {
            let repo = &app.repos[i];
            let lines = log_lines(&repo.log);
            assert(lines.deep_view().len() == lines@.len());
            let scroll: usize = if repo.auto_scroll {
                lines.len().saturating_sub(height as usize)
            } else {
                clamp_scroll(repo.preview_scroll, lines.len(), height as usize)
            };
            assert(app.repos.deep_view()[i as int] == repo.deep_view());
            return PreviewView {
                title: build_preview_title(repo.name.as_str(), &repo.status, elapsed),
                border,
                lines: ansi_lines(&lines),
                scroll: to_u16(scroll),
            };
        }
    }
    let lines = build_result_summary(app);
    PreviewView { title: " Result ".to_string(), border, lines: ansi_lines(&lines), scroll: 0 }
}

/// The time of the selected repo's pull by `now`, in seconds; none where no repo is shown or its
/// pull has not begun.
pub fn selected_time(app: &AppState, now: Elapsed) -> (text: Option<String>)
    requires
        forall|i: int| 0 <= i < app.repos@.len() ==> times_fit((#[trigger] app.repos@[i]).deep_view()),
        now.wf(),
    ensures
        match app.selected_repo() {
            Some(i) => match pull_time(app.repos@[i as int].deep_view(), now) {
                Some(nanos) => exists|time: Elapsed| #[trigger]
                    time.wf() && time.total_nanos() == nanos && text.deep_view() == Some(
                        seconds_text(time.secs, time.nanos, 2),
                    ),
                None => text is None,
            },
            None => text is None,
        },
{
    match app.selected_repo_index() {
        Some(i) => match time_of_pull(&app.repos[i], now) {
            Some(time) => Some(time.hundredths()),
            None => None,
        },
        None => None,
    }
}

// ---------------------------------------------------------------------------
// The status bar

/// The first row of the status bar: the filter that is being typed, or the keys to move and view.
pub open spec fn status_row1(filter: Option<Seq<char>>, input: bool) -> Seq<char> {
    if input {
        "Filter: "@ + match filter {
            Some(filter) => filter,
            None => Seq::empty(),
        }
    } else {
        (match filter {
            Some(filter) => if filter.len() > 0 {
                "["@ + filter + "] "@
            } else {
                Seq::empty()
            },
            None => Seq::empty(),
        })
            + "j/k ↑/↓ move · g/G top/end · click select · wheel scroll · space result · ? help"@
    }
}

/// The first row of the status bar: the filter that is being typed, or the keys to move and view.
pub fn build_status_row1(filter: &Option<String>, input: bool) -> (row: String)
    ensures
        row@ == status_row1(filter.deep_view(), input),
{
    if input {
        match filter {
            Some(filter) => "Filter: ".to_string().concat(filter.as_str()),
            None => {
                let row = "Filter: ".to_string();
                assert(row@ =~= "Filter: "@ + Seq::<char>::empty());
                row
            },
        }
    } else {
        let keys = "j/k ↑/↓ move · g/G top/end · click select · wheel scroll · space result · ? help";
        let tag = match filter {
            Some(filter) => {
                if !filter.as_str().is_empty() {
                    "[".to_string().concat(filter.as_str()).concat("] ")
                } else {
                    String::new()
                }
            },
            None => String::new(),
        };
        let row = tag.concat(keys);
        assert(row@ =~= status_row1(filter.deep_view(), input));
        row
    }
}

/// The style of a key that does something, or nothing.
pub open spec fn key_style(active: bool) -> TextStyle {
    if active {
        colored(Color::Gray)
    } else {
        TextStyle { dim: true, ..colored(Color::DarkGray) }
    }
}

fn style_of_key(active: bool) -> (style: TextStyle)
    ensures
        style == key_style(active),
{
    if active {
        in_color(Color::Gray)
    } else {
        TextStyle { dim: true, ..in_color(Color::DarkGray) }
    }
}

/// The numbers at the end of the status bar; `elapsed` is the time since the start in seconds.
pub open spec fn stats_text(jobs: nat, done: nat, total: nat, running: nat, elapsed: Seq<char>) -> Seq<
    char,
> {
    "  ·  "@ + decimal(jobs) + " jobs · "@ + decimal(done) + "/"@ + decimal(total) + " done · "@
        + decimal(running) + " running · "@ + elapsed + "s"@
}

/// The second row of the status bar: the keys that act, dimmed where they do nothing, and the
/// numbers of the run.
pub open spec fn status_row2(
    retry_one: bool,
    retry_all: bool,
    refetch_one: bool,
    refetch_all: bool,
    stats: Seq<char>,
) -> LineRuns {
    let hint = colored(Color::DarkGray);
    seq![
        ("r"@, key_style(retry_one)),
        ("/"@, hint),
        ("R"@, key_style(retry_all)),
        (" retry · "@, hint),
        ("f"@, key_style(refetch_one)),
        ("/"@, hint),
        ("F"@, key_style(refetch_all)),
        (" refetch · / filter · [ ] / drag resize · tab focus · q quit"@, hint),
        (stats, hint),
    ]
}

/// The second row of the status bar of a dashboard.
pub open spec fn status_row2_of(app: AppState, elapsed: Seq<char>) -> LineRuns {
    let statuses = statuses_of(app.repos@);
    let one = app.selected_repo();
    status_row2(
        one matches Some(i) && (app.repos@[i as int].status is Failed
            || app.repos@[i as int].status is Skipped),
        exists|i: int|
            0 <= i < app.repos@.len() && ((#[trigger] app.repos@[i]).status is Failed
                || app.repos@[i].status is Skipped),
        one matches Some(i) && app.repos@[i as int].status.is_over(),
        exists|i: int|
            0 <= i < app.repos@.len() && (#[trigger] app.repos@[i]).status.is_over(),
        stats_text(
            app.max_jobs as nat,
            status_count(statuses, |s: RepoStatus| s.is_over()),
            app.repos@.len(),
            status_count(statuses, |s: RepoStatus| s is Running),
            elapsed,
        ),
    )
}

/// The second row of the status bar; `elapsed` is the time since the start in seconds.
pub fn build_status_row2(app: &AppState, elapsed: &str) -> (row: StyledLine)
    ensures
        row.deep_view() == status_row2_of(*app, elapsed@),
{
    let (_, running, _, _, _, _) = app.counts();
    let stats = "  ·  ".to_string().concat(decimal_text(app.max_jobs as u64).as_str()).concat(
        " jobs · ",
    ).concat(decimal_text(app.done_count() as u64).as_str()).concat("/").concat(
        decimal_text(app.repos.len() as u64).as_str(),
    ).concat(" done · ").concat(decimal_text(running as u64).as_str()).concat(
        " running · ",
    ).concat(elapsed).concat("s");
    let hint = in_color(Color::DarkGray);
    let row = vec![
        styled("r", style_of_key(app.selected_repo_retryable())),
        styled("/", hint),
        styled("R", style_of_key(app.any_retryable())),
        styled(" retry · ", hint),
        styled("f", style_of_key(app.selected_repo_refetchable())),
        styled("/", hint),
        styled("F", style_of_key(app.any_refetchable())),
        styled(" refetch · / filter · [ ] / drag resize · tab focus · q quit", hint),
        styled(stats.as_str(), hint),
    ];
    assert(row.deep_view() =~= status_row2_of(*app, elapsed@));
    row
}

/// The rows of the status bar, so long after the start.
pub fn status_rows(app: &AppState, elapsed: Elapsed) -> (rows: (String, StyledLine))
    requires
        elapsed.wf(),
    ensures
        rows.0@ == status_row1(app.filter.deep_view(), app.filter_input_mode),
        rows.1.deep_view() == status_row2_of(
            *app,
            seconds_text(elapsed.secs, elapsed.nanos, 1),
        ),
{
    (
        build_status_row1(&app.filter, app.filter_input_mode),
        build_status_row2(app, elapsed.tenths().as_str()),
    )
}

// ---------------------------------------------------------------------------
// Where things stand

/// The area above the status bar, and the two lines of the status bar.
pub fn split_status_bar(area: Rect) -> (areas: (Rect, Rect))
    ensures
        areas == area_split(area, true, SizeRule::Min(3), SizeRule::Length(2)),
{
    split_area(area, true, SizeRule::Min(3), SizeRule::Length(2))
}

/// The width of the list pane: at least one column, and all but one where there are more.
pub open spec fn list_width(wanted: u16, width: u16) -> u16 {
    let most = if width >= 2 {
        width - 1
    } else {
        1
    };
    if wanted < 1 {
        1
    } else if wanted > most {
        most as u16
    } else {
        wanted
    }
}

fn clamp_list_width(wanted: u16, width: u16) -> (columns: u16)
    ensures
        columns == list_width(wanted, width),
{
    let most: u16 = if width >= 2 {
        width - 1
    } else {
        1
    };
    if wanted < 1 {
        1
    } else if wanted > most {
        most
    } else {
        wanted
    }
}

/// The list pane and the preview pane; `wanted` is the width of the list pane that is asked for.
pub open spec fn panes(main: Rect, wanted: u16) -> (Rect, Rect) {
    area_split(
        main,
        false,
        SizeRule::Length(list_width(wanted, main.width)),
        SizeRule::Min(0),
    )
}

impl AppState {
    /// Lays the panes out and captures where they stand, for mouse hit-testing; `wanted` is the
    /// width of the list pane that is asked for.
    pub fn lay_out(&mut self, main: Rect, wanted: u16)
        ensures
            *final(self) == (AppState {
                main_area: main,
                list_area: panes(main, wanted).0,
                preview_area: panes(main, wanted).1,
                divider_col: panes(main, wanted).1.x,
                ..*old(self)
            }),
    {
        let left: u16 = clamp_list_width(wanted, main.width);
        let (list, preview) = split_area(
            main,
            false,
            SizeRule::Length(left),
            SizeRule::Min(0),
        );
        self.main_area = main;
        self.list_area = list;
        self.preview_area = preview;
        self.divider_col = preview.x;
    }
}

/// A rect of the given size in the middle of `area`, and no larger.
pub open spec fn centered(width: u16, height: u16, area: Rect) -> Rect {
    let w = least(width as int, area.width as int);
    let h = least(height as int, area.height as int);
    Rect {
        x: (area.x + (area.width - w) / 2) as u16,
        y: (area.y + (area.height - h) / 2) as u16,
        width: w as u16,
        height: h as u16,
    }
}

/// A rect of the given size in the middle of `area` begins on a cell that `u16` counts.
pub open spec fn can_center(width: u16, height: u16, area: Rect) -> bool {
    &&& area.x + (area.width - least(width as int, area.width as int)) / 2 <= u16::MAX
    &&& area.y + (area.height - least(height as int, area.height as int)) / 2 <= u16::MAX
}

/// A centered rect of the given size within `area`.
pub fn centered_rect(width: u16, height: u16, area: Rect) -> (rect: Rect)
    requires
        can_center(width, height, area),
    ensures
        rect == centered(width, height, area),
{
    let width: u16 = if width <= area.width {
        width
    } else {
        area.width
    };
    let height: u16 = if height <= area.height {
        height
    } else {
        area.height
    };
    Rect {
        x: area.x + (area.width - width) / 2,
        y: area.y + (area.height - height) / 2,
        width,
        height,
    }
}

// ---------------------------------------------------------------------------
// Laws

/// The panes lie side by side and fill the main area; both have a column where there are two.
pub proof fn law_panes_fill_main_area(main: Rect, wanted: u16)
    requires
        main.fits(),
    ensures
        ({
            let (list, preview) = panes(main, wanted);
            &&& list.x == main.x && preview.x == list.x + list.width
            &&& list.width + preview.width == main.width
            &&& list.y == main.y && preview.y == main.y
            &&& list.height == main.height && preview.height == main.height
            &&& main.width >= 2 ==> list.width >= 1 && preview.width >= 1
            &&& 1 <= wanted < main.width ==> list.width == wanted
            &&& list.fits() && preview.fits()
        }),
{
}

/// The status bar stands below the main area: it has two lines where there are five, and the main
/// area has three where there are that many.
pub proof fn law_status_bar_is_below(area: Rect)
    requires
        area.fits(),
    ensures
        ({
            let (main, bar) = area_split(area, true, SizeRule::Min(3), SizeRule::Length(2));
            &&& main.y == area.y && bar.y == main.y + main.height
            &&& main.height + bar.height == area.height
            &&& main.x == area.x && bar.x == area.x
            &&& main.width == area.width && bar.width == area.width
            &&& area.height >= 5 ==> bar.height == 2
            &&& area.height >= 3 ==> main.height >= 3
            &&& main.fits() && bar.fits()
        }),
{
}

/// A centered rect lies inside its area, with margins that differ by at most one cell.
pub proof fn law_centered_rect_is_inside(width: u16, height: u16, area: Rect)
    requires
        area.fits(),
    ensures
        ({
            let rect = centered(width, height, area);
            let left = rect.x - area.x;
            let right = area.x + area.width - (rect.x + rect.width);
            let above = rect.y - area.y;
            let below = area.y + area.height - (rect.y + rect.height);
            &&& rect.width == least(width as int, area.width as int)
            &&& rect.height == least(height as int, area.height as int)
            &&& 0 <= left <= right <= left + 1
            &&& 0 <= above <= below <= above + 1
            &&& rect.fits()
        }),
{
}

/// The preview never scrolls past its end: what is shown begins at a line of the text, and where
/// the text is longer than the pane, the pane is filled.
pub proof fn law_scroll_stays_in_text(scroll: nat, lines: nat, height: nat)
    ensures
        clamped_scroll(scroll, lines, height) <= scroll,
        lines >= height ==> clamped_scroll(scroll, lines, height) + height <= lines,
        lines < height ==> clamped_scroll(scroll, lines, height) == 0,
        clamped_scroll(clamped_scroll(scroll, lines, height), lines, height) == clamped_scroll(
            scroll,
            lines,
            height,
        ),
{
}

/// While it follows the log, the preview shows the newest line: the lines that are shown end with
/// the log, and it shows all of them that there is room for.
pub proof fn law_preview_follows_log(app: AppState, height: nat, elapsed: Option<Seq<char>>)
    requires
        !shows_result(app),
        ({
            let repo = app.repos.deep_view()[app.visible()[app.selected as int] as int];
            repo.auto_scroll && repo.log.len() <= RING_BUFFER_CAPACITY
        }),
    ensures
        ({
            let shown = preview_shown(app, height, elapsed);
            &&& shown.lines.len() >= height ==> shown.scroll + height == shown.lines.len()
            &&& shown.lines.len() < height ==> shown.scroll == 0
        }),
{
}

/// Each repo that is shown has its row, in order, and the row that is selected is that of the
/// selected repo or that of the Result.
pub proof fn law_list_rows(app: AppState, inner_width: u16, tick: u64, elapsed: Seq<char>)
    requires
        app.visible().len() < usize::MAX,
    ensures
        ({
            let shown = list_shown(app, inner_width, tick, elapsed);
            &&& shown.rows.len() == app.visible().len() + 2
            &&& shown.selected < shown.rows.len()
            &&& app.selected < app.visible().len() ==> shown.selected == app.selected
            &&& app.selected >= app.visible().len() ==> shown.selected == shown.rows.len() - 1
        }),
{
}

/// A click counts where the list is drawn, and selects the row that is clicked: the cells that a
/// click counts on are those inside the border of the list pane, and once the item is selected,
/// its row is the selected one.
pub proof fn law_click_selects_the_row(
    app: AppState,
    col: u16,
    row: u16,
    inner_width: u16,
    tick: u64,
    elapsed: Seq<char>,
)
    requires
        app.list_area.fits(),
        app.visible().len() < usize::MAX,
    ensures
        ({
            let inner = inside_border(app.list_area);
            &&& app.in_list(col, row) <==> inner.x <= col < inner.x + inner.width && inner.y <= row
                < inner.y + inner.height
            &&& app.item_at(col, row) matches Some(item) ==> list_shown(
                app.navigated(item),
                inner_width,
                tick,
                elapsed,
            ).selected == row - inner.y + app.list_offset
        }),
{
}

/// A repo stands in the section of its status and in no other.
pub proof fn law_sections_are_disjoint(repo: RepoView, a: RepoStatus, b: RepoStatus)
    requires
        a != b,
    ensures
        entry_with(repo, a) is None || entry_with(repo, b) is None,
{
}

/// The sections of the summary list as many repos as are counted.
pub proof fn law_section_lengths(repos: Seq<RepoView>, status: RepoStatus)
    ensures
        entries_with(repos, status).len() == repos.filter(
            |repo: RepoView| repo.status == status,
        ).len(),
    decreases repos.len(),
{
    reveal(Seq::filter);
    let keep = |repo: RepoView| entry_with(repo, status);
    let same_status = |repo: RepoView| repo.status == status;
    if repos.len() > 0 {
        let rest = repos.drop_last();
        law_section_lengths(rest, status);
        assert(repos =~= rest.push(repos.last()));
        rest.lemma_filter_push(repos.last(), same_status);
    }
}

} // verus!

//! The help modal: its lines, the part of them that is shown, and the rows that open an address.

use vstd::prelude::*;
use vstd::string::*;

use crate::app::{names_of, AppState, Rect, RepoState, RepoView};
use crate::number::{align_left, left_aligned};
use crate::outside::{block_inner, greatest, inside_border, least};
use crate::render::{
    branch_or_question, can_center, centered, centered_rect, clamp_scroll, clamped_scroll, LineRuns,
    StyledLine,
};
use crate::style::{colored, in_color, plain_style, styled, Color, TextStyle};
use crate::text::chars_of;

verus! {

/// How a line of the help is shown.
#[derive(Debug, Clone, Copy, PartialEq, Eq, Structural)]
pub enum HelpKind {
    /// The header of a part.
    Header,
    /// Text.
    Plain,
    /// A label and an address.
    Link,
}

/// The lines of the help before the repos: how each is shown, its text or label, and its address.
pub const HELP_LINES: [(HelpKind, &'static str, &'static str); 33] = [
    (HelpKind::Header, "pull-all — interactive multi-repo git pull dashboard", ""),
    (HelpKind::Plain, "", ""),
    (HelpKind::Link, "GitHub", "https://github.com/steven-pribilinskiy/pull-all"),
    (
        HelpKind::Link,
        "Notes",
        "https://notes.lvh.me/library/default/devtools/pull-all-tui-bake-off-2026.md",
    ),
    (
        HelpKind::Link,
        "",
        "https://notes.lvh.me/library/default/devtools/pull-all-tui-interaction-features-2026.md",
    ),
    (HelpKind::Plain, "", ""),
    (HelpKind::Header, "SUBCOMMANDS  (forward to sibling builds; args passed through)", ""),
    (HelpKind::Plain, "  pull-all go  [args]   Go / bubbletea build", ""),
    (HelpKind::Plain, "  pull-all bun [args]   Bun / ink build (JIT)", ""),
    (HelpKind::Plain, "  pull-all cli [args]   bash streaming version", ""),
    (HelpKind::Plain, "", ""),
    (HelpKind::Header, "FLAGS & ENVIRONMENT", ""),
    (HelpKind::Plain, "  [DIR]                          directory to scan (default: cwd)", ""),
    (HelpKind::Plain, "  -j N  / PULL_JOBS=N            concurrency (default: nproc)", ""),
    (
        HelpKind::Plain,
        "  --timeout S / PULL_TIMEOUT=S   per-pull timeout seconds (default: 30)",
        "",
    ),
    (HelpKind::Plain, "  --no-tui                       plain streaming output (no TUI)", ""),
    (HelpKind::Plain, "  --no-worktrees                 skip worktree discovery", ""),
    (
        HelpKind::Plain,
        "  --profile / PULL_PROFILE=1     per-repo timing report (slowest first)",
        "",
    ),
    (HelpKind::Plain, "  --profile-out FILE             write the profile report to FILE", ""),
    (HelpKind::Plain, "", ""),
    (HelpKind::Header, "HOTKEYS", ""),
    (
        HelpKind::Plain,
        "  Move     j/k  ↑/↓  ·  g/G top/end  ·  wheel scroll  ·  click a row to select",
        "",
    ),
    (
        HelpKind::Plain,
        "  View     space result overlay  ·  tab list/preview focus  ·  PgUp/PgDn scroll preview  ·  End resume autoscroll",
        "",
    ),
    (
        HelpKind::Plain,
        "  Retry    r selected · R all          (repos that failed or were skipped)",
        "",
    ),
    (
        HelpKind::Plain,
        "  Refetch  f selected · F all          (re-pull anything; skips in-progress)",
        "",
    ),
    (HelpKind::Plain, "  Layout   [ ] resize panes  ·  drag the divider to resize", ""),
    (HelpKind::Plain, "  Filter   / filter by name  ·  Esc clear filter", ""),
    (
        HelpKind::Plain,
        "  Other    c clear log  ·  ? this help  ·  q quit  ·  Ctrl-C exit",
        "",
    ),
    (HelpKind::Plain, "", ""),
    (HelpKind::Header, "EXIT CODES", ""),
    (
        HelpKind::Plain,
        "  0 all ok  ·  1 any failed  ·  2 quit mid-run  ·  130 Ctrl-C",
        "",
    ),
    (HelpKind::Plain, "", ""),
    (HelpKind::Header, "REPOSITORIES  (click a row to open it on its host)", ""),
];

/// A line of the help, and the address that a click on it opens.
pub struct HelpItem {
    pub line: StyledLine,
    pub url: Option<String>,
}

impl DeepView for HelpItem {
    type V = (LineRuns, Option<Seq<char>>);

    open spec fn deep_view(&self) -> (LineRuns, Option<Seq<char>>) {
        (self.line.deep_view(), self.url.deep_view())
    }
}

/// The style of a header.
pub open spec fn header_style() -> TextStyle {
    TextStyle { bold: true, ..colored(Color::Yellow) }
}

/// The style of an address.
pub open spec fn link_style() -> TextStyle {
    TextStyle { underlined: true, ..colored(Color::Cyan) }
}

fn style_of_link() -> (style: TextStyle)
    ensures
        style == link_style(),
{
    TextStyle { underlined: true, ..in_color(Color::Cyan) }
}

/// A line of the help before the repos.
pub open spec fn fixed_item(kind: HelpKind, text: Seq<char>, url: Seq<char>) -> (
    LineRuns,
    Option<Seq<char>>,
) {
    match kind {
        HelpKind::Header => (seq![(text, header_style())], None),
        HelpKind::Plain => (seq![(text, plain_style())], None),
        HelpKind::Link => (
            seq![(left_aligned(text, 9), colored(Color::Gray)), (url, link_style())],
            Some(url),
        ),
    }
}

fn build_fixed_item(kind: HelpKind, text: &str, url: &str) -> (item: HelpItem)
    ensures
        item.deep_view() == fixed_item(kind, text@, url@),
{
    match kind {
        HelpKind::Header => {
            let style = TextStyle { bold: true, ..in_color(Color::Yellow) };
            let line = vec![styled(text, style)];
            assert(line.deep_view() =~= seq![(text@, header_style())]);
            HelpItem { line, url: None }
        },
        HelpKind::Plain => {
            let line = vec![styled(text, TextStyle::default())];
            assert(line.deep_view() =~= seq![(text@, plain_style())]);
            HelpItem { line, url: None }
        },
        HelpKind::Link => {
            let label = align_left(text, 9);
            let line = vec![
                styled(label.as_str(), in_color(Color::Gray)),
                styled(url, style_of_link()),
            ];
            assert(line.deep_view() =~= seq![
                (left_aligned(text@, 9), colored(Color::Gray)),
                (url@, link_style()),
            ]);
            HelpItem { line, url: Some(url.to_string()) }
        },
    }
}

/// The lines of the help before the repos.
pub open spec fn fixed_items() -> Seq<(LineRuns, Option<Seq<char>>)> {
    HELP_LINES@.map_values(
        |line: (HelpKind, &'static str, &'static str)| fixed_item(line.0, line.1@, line.2@),
    )
}

/// The width of the column of names: that of the longest name, and at most 30.
pub open spec fn name_column(names: Seq<Seq<char>>) -> nat
    decreases names.len(),
{
    if names.len() == 0 {
        0
    } else {
        let before = name_column(names.drop_last());
        let last = if names.last().len() <= 30 {
            names.last().len()
        } else {
            30
        };
        if last > before {
            last
        } else {
            before
        }
    }
}

/// The line of a repo: a click on it opens its remote, where it has one.
pub open spec fn repo_item(repo: RepoView, name_pad: nat) -> (LineRuns, Option<Seq<char>>) {
    (
        seq![
            ("  "@ + left_aligned(repo.name, name_pad) + "  "@, colored(Color::Gray)),
            (left_aligned(branch_or_question(repo.branch), 16), colored(Color::Cyan)),
            match repo.remote_url {
                Some(url) => (url, link_style()),
                None => ("(no remote)"@, colored(Color::DarkGray)),
            },
        ],
        repo.remote_url,
    )
}

fn build_repo_item(repo: &RepoState, name_pad: usize) -> (item: HelpItem)
    ensures
        item.deep_view() == repo_item(repo.deep_view(), name_pad as nat),
{
    let prefix = "  ".to_string().concat(
        align_left(repo.name.as_str(), name_pad).as_str(),
    ).concat("  ");
    let branch = match &repo.branch {
        Some(branch) => align_left(branch.as_str(), 16),
        None => align_left("?", 16),
    };
    let (remote, url) = match &repo.remote_url {
        Some(url) => (styled(url.as_str(), style_of_link()), Some(url.clone())),
        None => (styled("(no remote)", in_color(Color::DarkGray)), None),
    };
    let ghost last = remote.deep_view();
    let line = vec![
        styled(prefix.as_str(), in_color(Color::Gray)),
        styled(branch.as_str(), in_color(Color::Cyan)),
        remote,
    ];
    assert(line.deep_view() =~= seq![
        (prefix@, colored(Color::Gray)),
        (branch@, colored(Color::Cyan)),
        last,
    ]);
    HelpItem { line, url }
}

/// The lines of the help.
pub open spec fn help_items(repos: Seq<RepoState>) -> Seq<(LineRuns, Option<Seq<char>>)> {
    fixed_items() + repos.map_values(
        |repo: RepoState| repo_item(repo.deep_view(), name_column(names_of(repos))),
    )
}

fn name_pad_of(repos: &Vec<RepoState>) -> (pad: usize)
    ensures
        pad == name_column(names_of(repos@)),
{
    let ghost all = names_of(repos@);
    let mut pad: usize = 0;
    let mut i: usize = 0;
    assert(all.take(0) =~= Seq::empty());
    while i < repos.len()
        invariant
            i <= repos@.len(),
            all == names_of(repos@),
            pad == name_column(all.take(i as int)),
        decreases repos@.len() - i,
    {
        assert(all.take(i + 1).drop_last() =~= all.take(i as int));
        let len: usize = chars_of(repos[i].name.as_str()).len();
        let len: usize = if len <= 30 {
            len
        } else {
            30
        };
        if len > pad {
            pad = len;
        }
        i = i + 1;
    }
    assert(all.take(i as int) =~= all);
    pad
}

/// The lines of the help: clickable links, subcommands, flags/env, grouped hotkeys, exit codes,
/// and the repo list (each row clickable to open its remote).
pub fn build_help_items(repos: &Vec<RepoState>) -> (items: Vec<HelpItem>)
    ensures
        items.deep_view() == help_items(repos@),
{
    let mut items: Vec<HelpItem> = Vec::new();
    let mut i: usize = 0;
    while i < HELP_LINES.len()
        invariant
            i <= HELP_LINES@.len(),
            items.deep_view() =~= fixed_items().take(i as int),
        decreases HELP_LINES@.len() - i,
    {
        let ghost before = items.deep_view();
        let (kind, text, url) = HELP_LINES[i];
        let item = build_fixed_item(kind, text, url);
        let ghost one = item.deep_view();
        assert(one == fixed_items()[i as int]);
        items.push(item);
        assert(items.deep_view() =~= before.push(one));
        i = i + 1;
    }
    assert(items.deep_view() =~= fixed_items());
    let name_pad: usize = name_pad_of(repos);
    let ghost show = |repo: RepoState| repo_item(repo.deep_view(), name_pad as nat);
    let mut k: usize = 0;
    while k < repos.len()
        invariant
            k <= repos@.len(),
            show == (|repo: RepoState| repo_item(repo.deep_view(), name_pad as nat)),
            items.deep_view() =~= fixed_items() + repos@.take(k as int).map_values(show),
        decreases repos@.len() - k,
    {
        let ghost before = items.deep_view();
        let item = build_repo_item(&repos[k], name_pad);
        let ghost one = item.deep_view();
        items.push(item);
        assert(items.deep_view() =~= before.push(one));
        k = k + 1;
    }
    assert(repos@.take(k as int) =~= repos@);
    assert(items.deep_view() =~= help_items(repos@));
    items
}

/// What the help modal shows.
pub struct HelpView {
    /// The modal with its border.
    pub modal: Rect,
    /// The modal inside its border.
    pub inner: Rect,
    /// The lines that are shown.
    pub lines: Vec<StyledLine>,
}

/// The width that the help modal asks for.
pub open spec fn help_width(area: Rect) -> u16 {
    let wide = greatest(area.width - 4, 0);
    greatest(least(wide, 110), 40) as u16
}

/// The height that the help modal asks for.
pub open spec fn help_height(area: Rect) -> u16 {
    greatest(greatest(area.height - 2, 0), 8) as u16
}

/// Where the help modal stands.
pub open spec fn help_modal(area: Rect) -> Rect {
    centered(help_width(area), help_height(area), area)
}

/// The lines that are shown of the help: `first` is the first of them.
pub open spec fn help_window(
    items: Seq<(LineRuns, Option<Seq<char>>)>,
    first: int,
    height: int,
) -> Seq<(LineRuns, Option<Seq<char>>)> {
    items.subrange(
        first,
        if first + height <= items.len() {
            first + height
        } else {
            items.len() as int
        },
    )
}

/// The lines of some items.
pub open spec fn item_lines(items: Seq<(LineRuns, Option<Seq<char>>)>) -> Seq<LineRuns> {
    items.map_values(|item: (LineRuns, Option<Seq<char>>)| item.0)
}

/// The screen rows of the items that open an address; `top` is the row of the first item.
pub open spec fn item_links(items: Seq<(LineRuns, Option<Seq<char>>)>, top: int) -> Seq<
    (u16, Seq<char>),
>
    decreases items.len(),
{
    if items.len() == 0 {
        Seq::empty()
    } else {
        let before = item_links(items.drop_last(), top);
        match items.last().1 {
            Some(url) => before.push(((top + items.len() - 1) as u16, url)),
            None => before,
        }
    }
}

/// The items that the help modal shows in `area`, where it is scrolled to `scroll`.
pub open spec fn help_shown(repos: Seq<RepoState>, scroll: usize, area: Rect) -> Seq<
    (LineRuns, Option<Seq<char>>),
> {
    let items = help_items(repos);
    let height = inside_border(help_modal(area)).height;
    help_window(
        items,
        clamped_scroll(scroll as nat, items.len(), height as nat) as int,
        height as int,
    )
}

/// The modal begins on a cell that `u16` counts, and so does each of its rows that opens an
/// address.
pub open spec fn help_fits(repos: Seq<RepoState>, scroll: usize, area: Rect) -> bool {
    let shown = help_shown(repos, scroll, area);
    &&& can_center(help_width(area), help_height(area), area)
    &&& forall|k: int|
        0 <= k < shown.len() && (#[trigger] shown[k]).1 is Some ==> inside_border(
            help_modal(area),
        ).y + k <= u16::MAX
}

fn copy_line(line: &StyledLine) -> (copy: StyledLine)
    ensures
        copy.deep_view() == line.deep_view(),
{
    let mut copy: StyledLine = Vec::new();
    let mut i: usize = 0;
    while i < line.len()
        invariant
            i <= line@.len(),
            copy.deep_view() =~= line.deep_view().take(i as int),
        decreases line@.len() - i,
    {
        assert(line.deep_view()[i as int] == line@[i as int].deep_view());
        let ghost before = copy.deep_view();
        let run = styled(line[i].text.as_str(), line[i].style);
        let ghost one = run.deep_view();
        copy.push(run);
        assert(copy.deep_view() =~= before.push(one));
        i = i + 1;
    }
    copy
}

impl AppState {
    /// What the `?` help modal shows in `area`: scrolls no further than its last line, and
    /// captures the screen row of every line that opens an address.
    pub fn help_view(&mut self, area: Rect) -> (view: HelpView)
        requires
            help_fits(old(self).repos@, old(self).help_scroll, area),
        ensures
            ({
                let items = help_items(old(self).repos@);
                let inner = inside_border(help_modal(area));
                let first = clamped_scroll(
                    old(self).help_scroll as nat,
                    items.len(),
                    inner.height as nat,
                );
                let window = help_shown(old(self).repos@, old(self).help_scroll, area);
                &&& view.modal == help_modal(area)
                &&& view.inner == inner
                &&& view.lines.deep_view() == item_lines(window)
                &&& *final(self) == (AppState {
                    help_scroll: first as usize,
                    help_links: final(self).help_links,
                    ..*old(self)
                })
                &&& final(self).help_links.deep_view() == item_links(window, inner.y as int)
            }),
    {
        let items = build_help_items(&self.repos);
        let ghost all = items.deep_view();
        let wide: u16 = area.width.saturating_sub(4);
        let wide: u16 = if wide > 110 {
            110
        } else if wide < 40 {
            40
        } else {
            wide
        };
        let high: u16 = area.height.saturating_sub(2);
        let high: u16 = if high < 8 {
            8
        } else {
            high
        };
        let modal = centered_rect(wide, high, area);
        assert(modal == help_modal(area));
        let inner = block_inner(modal);
        let height: usize = inner.height as usize;
        let total: usize = items.len();
        assert(all.len() == total);
        let first: usize = clamp_scroll(self.help_scroll, total, height);
        let end: usize = if total - first >= height {
            first + height
        } else {
            total
        };
        self.help_scroll = first;
        let ghost window = help_window(all, first as int, height as int);
        let mut links: Vec<(u16, String)> = Vec::new();
        let mut lines: Vec<StyledLine> = Vec::new();
        let mut i: usize = first;
        while i < end
            invariant
                first <= i <= end <= total,
                end - first <= height,
                height == inner.height,
                forall|k: int|
                    0 <= k < window.len() && (#[trigger] window[k]).1 is Some ==> inner.y + k
                        <= u16::MAX,
                total == items@.len(),
                all == items.deep_view(),
                window == all.subrange(first as int, end as int),
                lines.deep_view() =~= item_lines(window.take(i - first)),
                links.deep_view() =~= item_links(window.take(i - first), inner.y as int),
            decreases end - i,
        {
            let row: u16 = (i - first) as u16;
            proof {
                assert(window[i - first] == items@[i as int].deep_view());
                assert(window.take(i + 1 - first).drop_last() =~= window.take(i - first));
            }
            if let Some(url) = &items[i].url {
                let ghost before = links.deep_view();
                let link = (inner.y + row, url.clone());
                let ghost one = link.deep_view();
                links.push(link);
                assert(links.deep_view() =~= before.push(one));
            }
            let ghost before = lines.deep_view();
            let line = copy_line(&items[i].line);
            let ghost one = line.deep_view();
            lines.push(line);
            assert(lines.deep_view() =~= before.push(one));
            i = i + 1;
        }
        assert(window.take(i - first) =~= window);
        self.help_links = links;
        HelpView { modal, inner, lines }
    }
}

// ---------------------------------------------------------------------------
// Laws

/// On an area whose cells `u16` counts, the help modal can be shown, however it is scrolled.
pub proof fn law_help_fits_on_screen(repos: Seq<RepoState>, scroll: usize, area: Rect)
    requires
        area.fits(),
    ensures
        help_fits(repos, scroll, area),
{
}

/// The rows that open an address are rows of the modal, from top to bottom.
pub proof fn law_help_links_lie_in_modal(items: Seq<(LineRuns, Option<Seq<char>>)>, top: int)
    requires
        0 <= top,
        top + items.len() <= u16::MAX,
    ensures
        ({
            let links = item_links(items, top);
            &&& forall|k: int|
                0 <= k < links.len() ==> top <= (#[trigger] links[k]).0 < top + items.len()
                    && items[links[k].0 - top].1 == Some(links[k].1)
            &&& forall|k: int, l: int|
                0 <= k < l < links.len() ==> (#[trigger] links[k]).0 < (#[trigger] links[l]).0
        }),
    decreases items.len(),
{
    if items.len() > 0 {
        let rest = items.drop_last();
        law_help_links_lie_in_modal(rest, top);
        let before = item_links(rest, top);
        let links = item_links(items, top);
        assert forall|k: int| 0 <= k < links.len() implies top <= (#[trigger] links[k]).0 < top
            + items.len() && items[links[k].0 - top].1 == Some(links[k].1) by {
            if k < before.len() {
                assert(links[k] == before[k]);
                assert(rest[before[k].0 - top] == items[before[k].0 - top]);
            }
        }
        assert forall|k: int, l: int| 0 <= k < l < links.len() implies (#[trigger] links[k]).0 < (
        #[trigger] links[l]).0 by {
            assert(links[k] == before[k]);
            if l < before.len() {
                assert(links[l] == before[l]);
            }
        }
    }
}

/// The help shows no more lines than the modal has room for, and fills it where there are enough.
pub proof fn law_help_window_fits(
    items: Seq<(LineRuns, Option<Seq<char>>)>,
    scroll: nat,
    height: nat,
)
    ensures
        ({
            let window = help_window(
                items,
                clamped_scroll(scroll, items.len(), height) as int,
                height as int,
            );
            &&& items.len() >= height ==> window.len() == height
            &&& items.len() < height ==> window == items
        }),
{
    if items.len() < height {
        assert(items.subrange(0, items.len() as int) =~= items);
    }
}

} // verus!

//! The per-repo timing report.

use vstd::prelude::*;
use vstd::string::*;

use crate::elapsed::{longer, Elapsed};
use crate::number::{align_left, align_right, decimal, decimal_text, left_aligned, right_aligned};
use crate::order::{
    arranged, is_sorted_order, lemma_sorted_order_agrees, place_order, sort_order,
};
use crate::outside::seconds_text;
use crate::text::{byte_len, byte_len_of, chars_of, string_of, trim, trimmed};

verus! {

/// One repo's timing entry for the profile report.
pub struct ProfileRow {
    pub name: String,
    pub branch: String,
    pub status: &'static str,
    pub elapsed: Elapsed,
    /// Last non-empty captured git log line (the failure reason for stragglers).
    pub last_log_line: String,
}

/// What a `ProfileRow` holds.
#[verifier::ext_equal]
pub struct RowView {
    pub name: Seq<char>,
    pub branch: Seq<char>,
    pub status: Seq<char>,
    pub elapsed: Elapsed,
    pub last_log_line: Seq<char>,
}

impl DeepView for ProfileRow {
    type V = RowView;

    open spec fn deep_view(&self) -> RowView {
        RowView {
            name: self.name@,
            branch: self.branch@,
            status: self.status@,
            elapsed: self.elapsed,
            last_log_line: self.last_log_line@,
        }
    }
}

/// True when profiling is enabled, honoring the `--profile` flag and the value of the
/// `PULL_PROFILE` environment variable, where it is set (any non-empty value enables it).
pub fn profile_enabled(flag: bool, variable: &Option<String>) -> (enabled: bool)
    ensures
        enabled == (flag || (variable matches Some(value) && value@.len() > 0)),
{
    if flag {
        return true;
    }
    match variable {
        Some(value) => !value.as_str().is_empty(),
        None => false,
    }
}

/// At most the first `max` characters of a text.
pub open spec fn truncated(text: Seq<char>, max: nat) -> Seq<char> {
    if text.len() <= max {
        text
    } else {
        text.take(max as int)
    }
}

/// At most the first `max_chars` characters of `line`.
pub fn truncate(line: &str, max_chars: usize) -> (cut: String)
    ensures
        cut@ == truncated(line@, max_chars as nat),
{
    let chars = chars_of(line);
    if chars.len() <= max_chars {
        line.to_string()
    } else {
        let cut = string_of(&chars, 0, max_chars);
        assert(cut@ =~= line@.take(max_chars as int));
        cut
    }
}

/// The length of the longest name, in bytes.
pub open spec fn longest_name(rows: Seq<RowView>) -> nat
    decreases rows.len(),
{
    if rows.len() == 0 {
        0
    } else {
        let before = longest_name(rows.drop_last());
        let last = byte_len_of(rows.last().name);
        if last >= before {
            last
        } else {
            before
        }
    }
}

/// The line of the report for one repo; `elapsed` is its time in seconds.
pub open spec fn row_line(elapsed: Seq<char>, row: RowView, name_pad: nat) -> Seq<char> {
    "  "@ + right_aligned(elapsed + "s"@, 8) + "  "@ + left_aligned(row.status, 10) + "  "@
        + left_aligned(row.name, name_pad) + "  ("@ + row.branch + ")  "@ + truncated(
        trimmed(row.last_log_line),
        100,
    ) + "\n"@
}

/// The line of the report for one repo; `elapsed` is its time in seconds.
pub fn format_row(elapsed: &str, row: &ProfileRow, name_pad: usize) -> (line: String)
    ensures
        line@ == row_line(elapsed@, row.deep_view(), name_pad as nat),
{
    let time = elapsed.to_string().concat("s");
    let last = truncate(trim(row.last_log_line.as_str()).as_str(), 100);
    "  ".to_string().concat(align_right(time.as_str(), 8).as_str()).concat("  ").concat(
        align_left(row.status, 10).as_str(),
    ).concat("  ").concat(align_left(row.name.as_str(), name_pad).as_str()).concat("  (").concat(
        row.branch.as_str(),
    ).concat(")  ").concat(last.as_str()).concat("\n")
}

/// The lines of the report for repos, in order.
pub open spec fn row_lines(rows: Seq<RowView>, name_pad: nat) -> Seq<char>
    decreases rows.len(),
{
    if rows.len() == 0 {
        Seq::empty()
    } else {
        let row = rows.last();
        row_lines(rows.drop_last(), name_pad) + row_line(
            seconds_text(row.elapsed.secs, row.elapsed.nanos, 2),
            row,
            name_pad,
        )
    }
}

/// The report of repos, in order.
pub open spec fn report_text(rows: Seq<RowView>) -> Seq<char> {
    "pull-all-tui profile — "@ + decimal(rows.len()) + " repos, slowest first\n"@ + row_lines(
        rows,
        longest_name(rows),
    )
}

/// The order of the report: the slowest repo first.
pub open spec fn slowest_first(rows: Seq<RowView>) -> spec_fn(int, int) -> bool {
    |i: int, j: int| longer(rows[i].elapsed, rows[j].elapsed)
}

/// Format the profile report, sorted by elapsed descending (slowest first); repos that took the
/// same time keep their order.
pub fn format_report(rows: Vec<ProfileRow>) -> (report: String)
    requires
        forall|i: int| 0 <= i < rows@.len() ==> (#[trigger] rows@[i]).elapsed.wf(),
    ensures
        exists|order: Seq<usize>| #[trigger]
            is_sorted_order(rows@.len(), order, slowest_first(rows.deep_view())) && report@
                == report_text(arranged(rows.deep_view(), order)),
{
    let ghost all = rows.deep_view();
    let mut times: Vec<Elapsed> = Vec::new();
    let mut i: usize = 0;
    while i < rows.len()
        invariant
            i <= rows@.len(),
            all == rows.deep_view(),
            times@.len() == i,
            forall|j: int| 0 <= j < i ==> #[trigger] times@[j] == all[j].elapsed,
        decreases rows@.len() - i,
    {
        times.push(rows[i].elapsed);
        i = i + 1;
    }
    let order = sort_order(&times);
    let ghost sorted = arranged(all, order@);
    proof {
        lemma_sorted_order_agrees(rows@.len(), order@, place_order(times@), slowest_first(all));
    }
    let mut name_pad: usize = 0;
    let mut k: usize = 0;
    while k < order.len()
        invariant
            k <= order@.len(),
            all == rows.deep_view(),
            sorted == arranged(all, order@),
            forall|j: int| 0 <= j < order@.len() ==> 0 <= #[trigger] order@[j] < rows@.len(),
            name_pad == longest_name(sorted.take(k as int)),
        decreases order@.len() - k,
    {
        proof {
            assert(sorted.take(k + 1).drop_last() =~= sorted.take(k as int));
            assert(sorted[k as int] == all[order@[k as int] as int]);
            assert(all[order@[k as int] as int] == rows@[order@[k as int] as int].deep_view());
        }
        let len: usize = byte_len(rows[order[k]].name.as_str());
        if len >= name_pad {
            name_pad = len;
        }
        k = k + 1;
    }
    assert(sorted.take(k as int) =~= sorted);
    let mut report = "pull-all-tui profile — ".to_string().concat(
        decimal_text(rows.len() as u64).as_str(),
    ).concat(" repos, slowest first\n");
    let ghost head = report@;
    let mut n: usize = 0;
    assert(head =~= head + row_lines(sorted.take(0), name_pad as nat));
    while n < order.len()
        invariant
            n <= order@.len(),
            all == rows.deep_view(),
            sorted == arranged(all, order@),
            forall|j: int| 0 <= j < rows@.len() ==> (#[trigger] rows@[j]).elapsed.wf(),
            forall|j: int| 0 <= j < order@.len() ==> 0 <= #[trigger] order@[j] < rows@.len(),
            report@ == head + row_lines(sorted.take(n as int), name_pad as nat),
        decreases order@.len() - n,
    {
        proof {
            assert(sorted.take(n + 1).drop_last() =~= sorted.take(n as int));
            assert(sorted[n as int] == all[order@[n as int] as int]);
            assert(all[order@[n as int] as int] == rows@[order@[n as int] as int].deep_view());
        }
        let row = &rows[order[n]];
        let elapsed = row.elapsed.hundredths();
        let line = format_row(elapsed.as_str(), row, name_pad);
        report.append(line.as_str());
        assert(report@ =~= head + row_lines(sorted.take(n + 1), name_pad as nat));
        n = n + 1;
    }
    assert(sorted.take(n as int) =~= sorted);
    report
}

// ---------------------------------------------------------------------------
// Laws

/// A text that is too long is cut to just as many characters as fit.
pub proof fn law_truncated_text_is_as_long_as_fits(text: Seq<char>, max: nat)
    ensures
        truncated(text, max) == text.take(if text.len() <= max {
            text.len() as int
        } else {
            max as int
        }),
{
    assert(text.take(text.len() as int) =~= text);
}

/// The names are filled up to the longest: no name is longer, and one is as long.
pub proof fn law_longest_name(rows: Seq<RowView>)
    ensures
        forall|i: int|
            0 <= i < rows.len() ==> byte_len_of((#[trigger] rows[i]).name) <= longest_name(rows),
        rows.len() > 0 ==> exists|i: int|
            0 <= i < rows.len() && byte_len_of((#[trigger] rows[i]).name) == longest_name(rows),
        rows.len() == 0 ==> longest_name(rows) == 0,
    decreases rows.len(),
{
    if rows.len() > 0 {
        let rest = rows.drop_last();
        law_longest_name(rest);
        let last = rows.len() - 1;
        assert forall|i: int| 0 <= i < rows.len() implies byte_len_of((#[trigger] rows[i]).name)
            <= longest_name(rows) by {
            if i < last {
                assert(rest[i] == rows[i]);
            }
        }
        if byte_len_of(rows[last].name) == longest_name(rows) {
        } else {
            let i = choose|i: int|
                0 <= i < rest.len() && byte_len_of((#[trigger] rest[i]).name) == longest_name(rest);
            assert(rows[i] == rest[i]);
        }
    }
}

/// So many spaces as fill a text of this length up to a width.
pub open spec fn spaces_up_to(width: int, len: int) -> Seq<char> {
    Seq::new(
        (if len < width {
            width - len
        } else {
            0
        }) as nat,
        |i: int| ' ',
    )
}

/// A row shows, in columns, the seconds, the status, the name, the branch and what was logged
/// last, cut to a hundred characters. What is wider than its column is shown whole.
pub proof fn law_row_shows_its_columns(elapsed: Seq<char>, row: RowView, name_pad: nat)
    ensures
        ({
            let told = trimmed(row.last_log_line);
            row_line(elapsed, row, name_pad) == "  "@ + (spaces_up_to(7, elapsed.len() as int)
                + elapsed + "s"@) + "  "@ + (row.status + spaces_up_to(
                10,
                row.status.len() as int,
            )) + "  "@ + (row.name + spaces_up_to(name_pad as int, row.name.len() as int))
                + "  ("@ + row.branch + ")  "@ + told.take(
                if told.len() <= 100 {
                    told.len() as int
                } else {
                    100
                },
            ) + "\n"@
        }),
{
    reveal_strlit("s");
    let told = trimmed(row.last_log_line);
    law_truncated_text_is_as_long_as_fits(told, 100);
    assert(right_aligned(elapsed + "s"@, 8) =~= spaces_up_to(7, elapsed.len() as int) + elapsed
        + "s"@);
    assert(left_aligned(row.status, 10) =~= row.status + spaces_up_to(
        10,
        row.status.len() as int,
    ));
    assert(left_aligned(row.name, name_pad) =~= row.name + spaces_up_to(
        name_pad as int,
        row.name.len() as int,
    ));
}

/// The report begins with how many repos it is about, and has one row for each, in their order,
/// with the names filled up to the longest.
pub proof fn law_report_has_a_row_for_each_repo(rows: Seq<RowView>, row: RowView, name_pad: nat)
    ensures
        report_text(rows) == "pull-all-tui profile — "@ + decimal(rows.len())
            + " repos, slowest first\n"@ + row_lines(rows, longest_name(rows)),
        row_lines(Seq::empty(), name_pad).len() == 0,
        row_lines(rows.push(row), name_pad) == row_lines(rows, name_pad) + row_line(
            seconds_text(row.elapsed.secs, row.elapsed.nanos, 2),
            row,
            name_pad,
        ),
{
    assert(rows.push(row).drop_last() =~= rows);
}

/// In the report no repo stands before one that took longer.
pub proof fn law_report_is_slowest_first(rows: Seq<RowView>, order: Seq<usize>, i: int, j: int)
    requires
        is_sorted_order(rows.len(), order, slowest_first(rows)),
        0 <= i < j < rows.len(),
    ensures
        !longer(arranged(rows, order)[j].elapsed, arranged(rows, order)[i].elapsed),
{
    assert(crate::order::ranked(slowest_first(rows), order[i] as int, order[j] as int));
}

/// A truncated text is the beginning of the text, and no longer than it may be.
pub proof fn law_truncated_text_is_a_prefix(text: Seq<char>, max: nat)
    ensures
        truncated(text, max).is_prefix_of(text),
        truncated(text, max).len() <= max,
        text.len() <= max ==> truncated(text, max) == text,
{
}

} // verus!

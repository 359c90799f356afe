//! Laws of what is read from git: that the parsers read back what git writes, and what holds of
//! every listing.

use vstd::prelude::*;

use crate::git::{
    branch_of_line, branches_told, browsable, change_count, commit_fields, details_told, diff_told,
    discarded, discarded_path, distance_in, distance_told, file_diff_told, file_of_line,
    line_change, normalized, number_at, porcelain_entry, scanned_worktrees, success_text,
    track_counts, uncommitted_file, uncommitted_told, unless_empty, worktrees_in, BaseView, Change,
    BASE_CANDIDATES, FIELD_SEPARATOR,
};
use crate::info::{BranchView, FileView, WorktreeView};
use crate::number::{
    decimal, is_digit, law_decimal_reads_back, law_numbers_read_back, signed_decimal,
};
use crate::output::OutputView;
use crate::path::parts_of;
use crate::text::{
    around_first, byte_len_of, find_text, has_text, is_blank, is_line, is_white, joined_with,
    law_cut_off_the_last_part, law_first_separator_parts, law_lines_read_back,
    law_split_undoes_join, law_trimming_keeps_tight_text, law_words_of_plain_text,
    law_words_of_two_sides, lemma_find_text, lemma_lacking_char, lines_of, occurs_at, terminated,
    trimmed, without_back, without_suffix, words_of, CharSet,
};

verus! {

// ---------------------------------------------------------------------------
// Reading back what git writes

proof fn lemma_decimal_is_tight(n: nat)
    ensures
        decimal(n).len() > 0,
        forall|i: int| 0 <= i < decimal(n).len() ==> is_digit(#[trigger] decimal(n)[i]),
        !is_white(decimal(n)[0]),
        !is_white(decimal(n).last()),
        !is_blank(decimal(n)),
        trimmed(decimal(n)) == decimal(n),
{
    law_decimal_reads_back(n);
    assert(is_digit(decimal(n)[0]));
    assert(is_digit(decimal(n)[decimal(n).len() - 1]));
    law_trimming_keeps_tight_text(decimal(n));
}

proof fn lemma_signed_is_tight(n: int)
    ensures
        signed_decimal(n).len() > 0,
        forall|i: int|
            0 <= i < signed_decimal(n).len() ==> #[trigger] signed_decimal(n)[i] == '-' || is_digit(
                signed_decimal(n)[i],
            ),
        is_digit(signed_decimal(n).last()),
        trimmed(signed_decimal(n)) == signed_decimal(n),
{
    let text = signed_decimal(n);
    let digits = decimal((if n < 0 { -n } else { n }) as nat);
    lemma_decimal_is_tight((if n < 0 { -n } else { n }) as nat);
    assert forall|i: int| 0 <= i < text.len() implies #[trigger] text[i] == '-' || is_digit(
        text[i],
    ) by {
        if n < 0 && i > 0 {
            assert(text[i] == digits[i - 1]);
        }
    }
    assert(text.last() == digits[digits.len() - 1]);
    assert(text[0] == '-' || is_digit(text[0]));
    law_trimming_keeps_tight_text(text);
}

/// The fields of a commit are read as they are written: hash, subject, author and date, none of
/// which holds the separator, and the time.
pub proof fn law_commit_reads_back(
    hash: Seq<char>,
    subject: Seq<char>,
    author: Seq<char>,
    date: Seq<char>,
    time: i64,
)
    requires
        !hash.contains(FIELD_SEPARATOR),
        !subject.contains(FIELD_SEPARATOR),
        !author.contains(FIELD_SEPARATOR),
        !date.contains(FIELD_SEPARATOR),
    ensures
        commit_fields(
            joined_with(
                seq![hash, subject, author, date, signed_decimal(time as int)],
                seq![FIELD_SEPARATOR],
            ).push('\n'),
        ) == (hash, subject, author, date, time),
{
    let number = signed_decimal(time as int);
    let fields = seq![hash, subject, author, date, number];
    let text = joined_with(fields, seq![FIELD_SEPARATOR]);
    let line = text.push('\n');
    lemma_signed_is_tight(time as int);
    law_numbers_read_back(0, 0, time);
    assert(!number.contains(FIELD_SEPARATOR)) by {
        if number.contains(FIELD_SEPARATOR) {
            let i = choose|i: int| 0 <= i < number.len() && number[i] == FIELD_SEPARATOR;
            assert(number[i] == '-' || is_digit(number[i]));
        }
    }
    law_split_undoes_join(fields, FIELD_SEPARATOR);
    assert(fields.last() == number);
    assert(text.last() == number.last());
    law_cut_off_the_last_part(text, seq!['\n'], CharSet::LineEnd);
    assert(text + seq!['\n'] =~= line);
    let feed = seq!['\n'];
    assert(feed.drop_last() =~= Seq::<char>::empty());
    assert(feed.last() == '\n');
    assert(without_back(feed.drop_last(), CharSet::LineEnd) =~= Seq::<char>::empty());
    assert(without_back(feed, CharSet::LineEnd) =~= Seq::<char>::empty());
    assert(without_back(line, CharSet::LineEnd) =~= text);
}

/// The fields of a branch are read as they are written, where none holds the separator: a branch
/// with a name is read, its upstream is none where it is empty, and its distance from the upstream
/// is what the track says.
pub proof fn law_branch_reads_back(fields: Seq<Seq<char>>)
    requires
        fields.len() == 8,
        forall|i: int| 0 <= i < fields.len() ==> !(#[trigger] fields[i]).contains(FIELD_SEPARATOR),
        fields[1].len() > 0,
    ensures
        branch_of_line(joined_with(fields, seq![FIELD_SEPARATOR])) == Some(
            BranchView {
                is_head: fields[0] == "*"@,
                name: fields[1],
                upstream: unless_empty(fields[2]),
                ahead: distance_told(fields[2], fields[3]).0,
                behind: distance_told(fields[2], fields[3]).1,
                last_commit_rel: fields[4],
                subject: fields[5],
                commit_sha: fields[6],
                author: fields[7],
                stats: None,
                merge_base_short: None,
            },
        ),
{
    law_split_undoes_join(fields, FIELD_SEPARATOR);
}

proof fn lemma_digits_are_no_separators(n: nat)
    ensures
        forall|i: int|
            0 <= i < decimal(n).len() ==> !CharSet::CommaOrSpace.has(#[trigger] decimal(n)[i])
                && !CharSet::White.has(decimal(n)[i]),
{
    lemma_decimal_is_tight(n);
    assert forall|i: int| 0 <= i < decimal(n).len() implies !CharSet::CommaOrSpace.has(
        #[trigger] decimal(n)[i],
    ) && !CharSet::White.has(decimal(n)[i]) by {
        assert(is_digit(decimal(n)[i]));
    }
}

/// What a track says of one side: the word and the number.
pub open spec fn track_side(word: Seq<char>, n: u32) -> Seq<char> {
    word.push(' ') + decimal(n as nat)
}

proof fn lemma_side_words(word: Seq<char>, n: u32)
    requires
        word.len() > 0,
        forall|i: int| 0 <= i < word.len() ==> !CharSet::CommaOrSpace.has(#[trigger] word[i]),
    ensures
        words_of(track_side(word, n), CharSet::CommaOrSpace) == seq![word, decimal(n as nat)],
{
    let set = CharSet::CommaOrSpace;
    let number = decimal(n as nat);
    lemma_decimal_is_tight(n as nat);
    lemma_digits_are_no_separators(n as nat);
    law_words_of_two_sides(word, ' ', number, set);
    law_words_of_plain_text(word, set);
    law_words_of_plain_text(number, set);
    assert(seq![word] + seq![number] =~= seq![word, number]);
}

proof fn lemma_track_words()
    ensures
        forall|i: int| 0 <= i < "ahead"@.len() ==> !CharSet::CommaOrSpace.has(#[trigger] "ahead"@[i]),
        forall|i: int|
            0 <= i < "behind"@.len() ==> !CharSet::CommaOrSpace.has(#[trigger] "behind"@[i]),
        "ahead"@.len() == 5,
        "behind"@.len() == 6,
        "gone"@.len() == 4,
        "ahead"@[0] == 'a',
        "behind"@[0] == 'b',
        "gone"@[0] == 'g',
{
    reveal_strlit("ahead");
    reveal_strlit("behind");
    reveal_strlit("gone");
}

proof fn lemma_pair_counts(word: Seq<char>, n: u32, ahead: u32, behind: u32)
    requires
        word == "ahead"@ || word == "behind"@,
    ensures
        track_counts(seq![word, decimal(n as nat)], ahead, behind) == (if word == "ahead"@ {
            (n, behind)
        } else {
            (ahead, n)
        }),
{
    lemma_track_words();
    law_numbers_read_back(0, n, 0);
    let tokens = seq![word, decimal(n as nat)];
    assert(number_at(tokens, 1) == Some(n));
    assert(tokens.skip(2) =~= Seq::empty());
    reveal_with_fuel(track_counts, 2);
}

/// A track of one side is read as it is written.
pub proof fn law_one_sided_track_reads_back(upstream: Seq<char>, n: u32)
    requires
        !is_blank(upstream),
    ensures
        distance_told(upstream, track_side("ahead"@, n)) == (Some(n), Some(0u32)),
        distance_told(upstream, track_side("behind"@, n)) == (Some(0u32), Some(n)),
{
    lemma_track_words();
    lemma_decimal_is_tight(n as nat);
    let ahead = track_side("ahead"@, n);
    let behind = track_side("behind"@, n);
    law_trimming_keeps_tight_text(ahead);
    law_trimming_keeps_tight_text(behind);
    lemma_side_words("ahead"@, n);
    lemma_side_words("behind"@, n);
    lemma_pair_counts("ahead"@, n, 0, 0);
    lemma_pair_counts("behind"@, n, 0, 0);
    assert(ahead[0] == 'a' && behind[0] == 'b');
}

/// A track of both sides is read as it is written.
pub proof fn law_two_sided_track_reads_back(upstream: Seq<char>, n: u32, m: u32)
    requires
        !is_blank(upstream),
    ensures
        distance_told(
            upstream,
            track_side("ahead"@, n).push(',').push(' ') + track_side("behind"@, m),
        ) == (Some(n), Some(m)),
{
    let set = CharSet::CommaOrSpace;
    lemma_track_words();
    lemma_decimal_is_tight(n as nat);
    lemma_decimal_is_tight(m as nat);
    let first = track_side("ahead"@, n);
    let second = track_side("behind"@, m);
    let text = first.push(',').push(' ') + second;
    law_trimming_keeps_tight_text(text);
    assert(text[0] == 'a');
    lemma_side_words("ahead"@, n);
    lemma_side_words("behind"@, m);
    law_words_of_two_sides(first.push(','), ' ', second, set);
    let none = Seq::<char>::empty();
    law_words_of_two_sides(first, ',', none, set);
    law_words_of_plain_text(none, set);
    assert(first.push(',') + none =~= first.push(','));
    let words = words_of(text, set);
    let front = seq!["ahead"@, decimal(n as nat)];
    let back = seq!["behind"@, decimal(m as nat)];
    assert(words =~= front + back);
    law_numbers_read_back(0, n, 0);
    assert(words[0] == "ahead"@);
    assert(number_at(words, 1) == Some(n));
    assert(words.skip(2) =~= back);
    lemma_pair_counts("behind"@, m, n, 0);
}

/// The distance from the upstream is read as it is written: first how far behind, then how far
/// ahead.
pub proof fn law_distance_reads_back(behind: u32, ahead: u32)
    ensures
        distance_in((decimal(behind as nat).push('\t') + decimal(ahead as nat)).push('\n')) == (
            Some(behind),
            Some(ahead),
        ),
{
    let set = CharSet::White;
    let left = decimal(behind as nat);
    let right = decimal(ahead as nat);
    let none = Seq::<char>::empty();
    lemma_decimal_is_tight(behind as nat);
    lemma_decimal_is_tight(ahead as nat);
    lemma_digits_are_no_separators(behind as nat);
    lemma_digits_are_no_separators(ahead as nat);
    law_words_of_two_sides(left.push('\t') + right, '\n', none, set);
    assert((left.push('\t') + right).push('\n') + none =~= (left.push('\t') + right).push('\n'));
    law_words_of_two_sides(left, '\t', right, set);
    law_words_of_plain_text(left, set);
    law_words_of_plain_text(right, set);
    law_words_of_plain_text(none, set);
    law_numbers_read_back(0, behind, 0);
    law_numbers_read_back(0, ahead, 0);
    let words = words_of((left.push('\t') + right).push('\n'), set);
    assert(words =~= seq![left, right]);
}

/// The distance is known for both sides or for none; without an upstream, or with one that is
/// gone, for none.
pub proof fn law_distance_is_known_for_both_sides(
    upstream: Seq<char>,
    track: Seq<char>,
    text: Seq<char>,
)
    ensures
        distance_in(text).0 is Some <==> distance_in(text).1 is Some,
        distance_told(upstream, track).0 is Some <==> distance_told(upstream, track).1 is Some,
        is_blank(upstream) || trimmed(track) == "gone"@ ==> distance_told(upstream, track) == (
            None::<u32>,
            None::<u32>,
        ),
{
}

// ---------------------------------------------------------------------------
// Remote addresses

proof fn lemma_trimmed_address(head: Seq<char>, path: Seq<char>)
    requires
        head.len() > 0,
        !is_white(head[0]),
        !is_white(head.last()),
    ensures
        trimmed(head + path) == head + without_back(path, CharSet::White),
        !is_blank(head + path),
{
    let whole = head + path;
    assert(whole[0] == head[0]);
    law_cut_off_the_last_part(head, path, CharSet::White);
}

/// The scp-like form and the ssh form of an address come to the same browsable address.
pub proof fn law_scp_and_ssh_forms_agree(host: Seq<char>, path: Seq<char>)
    requires
        !host.contains(':'),
    ensures
        normalized("git@"@ + host + ":"@ + path) == normalized(
            "ssh://git@"@ + host + "/"@ + path,
        ),
        normalized("git@"@ + host + ":"@ + path) is Some,
{
    reveal_strlit("git@");
    reveal_strlit("ssh://");
    reveal_strlit("ssh://git@");
    reveal_strlit(":");
    reveal_strlit("/");
    let kept = without_back(path, CharSet::White);
    let scp_head = "git@"@ + host + ":"@;
    let ssh_head = "ssh://git@"@ + host + "/"@;
    lemma_trimmed_address(scp_head, path);
    lemma_trimmed_address(ssh_head, path);
    let scp = scp_head + kept;
    let ssh = ssh_head + kept;
    let rest = host + ":"@ + kept;
    assert("git@"@.is_prefix_of(scp)) by {
        assert(scp.take(4) =~= "git@"@);
    }
    assert(scp.skip(4) =~= rest);
    assert(around_first(rest, ":"@) == Some((host, kept))) by {
        assert(":"@ =~= seq![':']);
        lemma_lacking_char(host, ':');
        assert(host + ":"@.drop_last() =~= host);
        law_first_separator_parts(host, ":"@, kept);
    }
    assert(!"git@"@.is_prefix_of(ssh)) by {
        assert(ssh[0] == 's');
    }
    assert("ssh://"@.is_prefix_of(ssh)) by {
        assert(ssh.take(6) =~= "ssh://"@);
    }
    let behind = ssh.skip(6);
    assert(behind =~= "git@"@ + host + "/"@ + kept);
    assert("git@"@.is_prefix_of(behind)) by {
        assert(behind.take(4) =~= "git@"@);
    }
    assert(behind.skip(4) =~= host + "/"@ + kept);
    assert("https://"@ + host + "/"@ + kept =~= "https://"@ + (host + "/"@ + kept));
}

proof fn lemma_suffix_leaves_scheme(address: Seq<char>, scheme: Seq<char>)
    requires
        scheme.is_prefix_of(address),
        !scheme.contains('.'),
    ensures
        scheme.is_prefix_of(without_suffix(address, ".git"@)),
{
    reveal_strlit(".git");
    if ".git"@.is_suffix_of(address) {
        let cut = address.len() - 4;
        assert(address[cut] == ".git"@[0]);
        if cut < scheme.len() {
            assert(scheme[cut] == address[cut]);
            assert(scheme.contains(scheme[cut]));
        }
        assert(address.take(cut).take(scheme.len() as int) =~= scheme);
    }
}

/// What an address is normalized to can be browsed: it begins with `https://`.
pub proof fn law_normalized_address_is_browsable(raw: Seq<char>)
    ensures
        normalized(raw) matches Some(url) ==> "https://"@.is_prefix_of(url),
{
    reveal_strlit("https://");
    if !is_blank(raw) {
        if let Some(address) = browsable(trimmed(raw)) {
            assert(address.take(8) =~= "https://"@);
            lemma_suffix_leaves_scheme(address, "https://"@);
        }
    }
}

/// The letter `s` makes no difference: an `http` address comes to what the `https` address does.
pub proof fn law_http_forms_agree(rest: Seq<char>)
    ensures
        normalized("http://"@ + rest) == normalized("https://"@ + rest),
        normalized("http://"@ + rest) is Some,
{
    reveal_strlit("git@");
    reveal_strlit("ssh://");
    reveal_strlit("http://");
    reveal_strlit("https://");
    let kept = without_back(rest, CharSet::White);
    lemma_trimmed_address("http://"@, rest);
    lemma_trimmed_address("https://"@, rest);
    let plain = "http://"@ + kept;
    let secure = "https://"@ + kept;
    lemma_other_beginning(plain, "git@"@);
    lemma_other_beginning(plain, "ssh://"@);
    lemma_other_beginning(secure, "git@"@);
    lemma_other_beginning(secure, "ssh://"@);
    assert(plain.take(7) =~= "http://"@);
    assert(plain.skip(7) =~= kept);
    assert(secure.take(8) =~= "https://"@);
    assert(!"http://"@.is_prefix_of(secure)) by {
        assert(secure[4] == 's');
        assert(secure.subrange(0, 7)[4] == 's');
        assert("http://"@[4] == ':');
    }
}

// ---------------------------------------------------------------------------
// Listings

/// A listing of branches is read line by line: each line that describes a branch gives it, in the
/// order of the lines.
pub proof fn law_branch_listing_reads_back(lines: Seq<Seq<char>>, output: OutputView)
    requires
        forall|i: int| 0 <= i < lines.len() ==> is_line(#[trigger] lines[i]),
        output.success,
        output.stdout == terminated(lines),
    ensures
        branches_told(Ok(output)) == lines.filter_map(|line: Seq<char>| branch_of_line(line)),
{
    law_lines_read_back(lines);
}

/// A worktree as git lists it; one without a branch is detached.
pub struct ListedWorktree {
    pub path: Seq<char>,
    pub head: Seq<char>,
    pub branch: Option<Seq<char>>,
}

/// The lines that git lists a worktree in.
pub open spec fn listed_lines(entry: ListedWorktree) -> Seq<Seq<char>> {
    seq![
        "worktree "@ + entry.path,
        "HEAD "@ + entry.head,
        match entry.branch {
            Some(branch) => "branch refs/heads/"@ + branch,
            None => "detached"@,
        },
        Seq::<char>::empty(),
    ]
}

/// The lines that git lists worktrees in.
pub open spec fn listing_lines(entries: Seq<ListedWorktree>) -> Seq<Seq<char>>
    decreases entries.len(),
{
    if entries.len() == 0 {
        Seq::empty()
    } else {
        listing_lines(entries.drop_last()) + listed_lines(entries.last())
    }
}

/// The worktree that is read of an entry: none for the main checkout and for a detached one.
pub open spec fn worktree_of_entry(entry: ListedWorktree, main_dir: Seq<char>) -> Option<
    WorktreeView,
> {
    match entry.branch {
        Some(branch) => if parts_of(entry.path) != parts_of(main_dir) {
            Some(WorktreeView { branch, path: entry.path })
        } else {
            None
        },
        None => None,
    }
}

proof fn lemma_other_beginning(s: Seq<char>, prefix: Seq<char>)
    requires
        prefix.len() > 0,
        s.len() == 0 || s[0] != prefix[0],
    ensures
        !prefix.is_prefix_of(s),
{
    if prefix.is_prefix_of(s) {
        assert(s.subrange(0, prefix.len() as int)[0] == s[0]);
    }
}

proof fn lemma_scan_entry(before: Seq<Seq<char>>, entry: ListedWorktree, main_dir: Seq<char>)
    ensures
        ({
            let scan = scanned_worktrees(before + listed_lines(entry), main_dir);
            &&& scan.path == Some(entry.path)
            &&& scan.branch == entry.branch
            &&& scan.found == scanned_worktrees(before, main_dir).closed_entry(main_dir)
        }),
{
    reveal_strlit("worktree ");
    reveal_strlit("HEAD ");
    reveal_strlit("branch ");
    reveal_strlit("branch refs/heads/");
    reveal_strlit("refs/heads/");
    reveal_strlit("detached");
    let added = listed_lines(entry);
    let all = before + added;
    let first = before.push(added[0]);
    let second = first.push(added[1]);
    let third = second.push(added[2]);
    assert(all =~= third.push(added[3]));
    assert(all.drop_last() =~= third);
    assert(third.drop_last() =~= second);
    assert(second.drop_last() =~= first);
    assert(first.drop_last() =~= before);
    assert(added[0].take(9) =~= "worktree "@);
    assert(added[0].skip(9) =~= entry.path);
    assert(scanned_worktrees(first, main_dir) == scanned_worktrees(before, main_dir).read(
        added[0],
        main_dir,
    ));
    lemma_other_beginning(added[1], "worktree "@);
    lemma_other_beginning(added[1], "branch "@);
    assert(scanned_worktrees(second, main_dir) == scanned_worktrees(first, main_dir));
    lemma_other_beginning(added[2], "worktree "@);
    if let Some(branch) = entry.branch {
        assert(added[2].take(7) =~= "branch "@);
        let name = added[2].skip(7);
        assert(name =~= "refs/heads/"@ + branch);
        assert(name.take(11) =~= "refs/heads/"@);
        assert(name.skip(11) =~= branch);
    } else {
        lemma_other_beginning(added[2], "branch "@);
    }
    assert(scanned_worktrees(third, main_dir).branch == entry.branch);
    lemma_other_beginning(added[3], "worktree "@);
    lemma_other_beginning(added[3], "branch "@);
}

proof fn lemma_scan_listing(entries: Seq<ListedWorktree>, main_dir: Seq<char>)
    ensures
        scanned_worktrees(listing_lines(entries), main_dir).closed_entry(main_dir)
            == entries.filter_map(|entry: ListedWorktree| worktree_of_entry(entry, main_dir)),
    decreases entries.len(),
{
    let keep = |entry: ListedWorktree| worktree_of_entry(entry, main_dir);
    if entries.len() == 0 {
        assert(entries.filter_map(keep) =~= Seq::empty());
    } else {
        let front = entries.drop_last();
        lemma_scan_listing(front, main_dir);
        lemma_scan_entry(listing_lines(front), entries.last(), main_dir);
        assert(entries.filter_map(keep) =~= match keep(entries.last()) {
            Some(worktree) => front.filter_map(keep).push(worktree),
            None => front.filter_map(keep),
        });
    }
}

/// Worktrees are read as git lists them: each with a branch is read with its path and branch, in
/// the order of the list, but for the main checkout; detached ones are left out.
pub proof fn law_worktree_listing_reads_back(entries: Seq<ListedWorktree>, main_dir: Seq<char>)
    requires
        forall|i: int|
            0 <= i < listing_lines(entries).len() ==> is_line(#[trigger] listing_lines(entries)[i]),
    ensures
        worktrees_in(terminated(listing_lines(entries)), main_dir) == entries.filter_map(
            |entry: ListedWorktree| worktree_of_entry(entry, main_dir),
        ),
{
    law_lines_read_back(listing_lines(entries));
    lemma_scan_listing(entries, main_dir);
}

/// A changed file is read as git lists it: the first letter of its status, and its path; of a
/// rename or a copy, the new one.
pub proof fn law_changed_file_reads_back(status: Seq<char>, old_path: Seq<char>, path: Seq<char>)
    requires
        status.len() > 0,
        path.len() > 0,
        !status.contains('\t'),
        !old_path.contains('\t'),
        !path.contains('\t'),
    ensures
        ({
            let file = Some(FileView { status: seq![status[0]], path, untracked: false });
            &&& file_of_line(joined_with(seq![status, path], seq!['\t'])) == file
            &&& file_of_line(joined_with(seq![status, old_path, path], seq!['\t'])) == file
        }),
{
    law_split_undoes_join(seq![status, path], '\t');
    law_split_undoes_join(seq![status, old_path, path], '\t');
}

proof fn lemma_byte_len(s: Seq<char>)
    ensures
        byte_len_of(s) >= s.len(),
    decreases s.len(),
{
    if s.len() > 0 {
        lemma_byte_len(s.drop_first());
    }
}

/// The arrow of a rename stands first behind the old path.
pub proof fn lemma_first_arrow(old_path: Seq<char>, path: Seq<char>)
    requires
        !has_text(old_path + " -"@, " -> "@),
    ensures
        find_text(old_path + " -> "@ + path, " -> "@) == Some(old_path.len() as int),
{
    reveal_strlit(" -> ");
    reveal_strlit(" -");
    let arrow = " -> "@;
    let front = old_path + arrow.drop_last();
    if has_text(front, arrow) {
        let j = choose|j: int| occurs_at(front, arrow, j);
        assert(front.subrange(j, j + 4)[3] == arrow[3]);
        assert(front[j + 3] == ' ');
        let less = old_path + " -"@;
        assert(less.subrange(j, j + 4) =~= front.subrange(j, j + 4));
        assert(occurs_at(less, arrow, j));
    }
    law_first_separator_parts(old_path, arrow, path);
}

/// A line of uncommitted changes is its code, one character and the path.
pub proof fn lemma_porcelain_line(index: char, tree: char, gap: char, rest: Seq<char>)
    requires
        index <= '\u{7f}',
        rest.len() > 0,
    ensures
        porcelain_entry(seq![index, tree, gap] + rest) == Some(
            (
                seq![index, tree],
                match around_first(rest, " -> "@) {
                    Some((_, new)) => new,
                    None => rest,
                },
            ),
        ),
{
    let line = seq![index, tree, gap] + rest;
    lemma_byte_len(line);
    assert(line[0] == index);
    assert(line.take(2) =~= seq![index, tree]);
    assert(line.skip(3) =~= rest);
}

/// An uncommitted change is read as git lists it: the code of two ASCII characters, and the path
/// behind a space; of a rename, the new path.
pub proof fn law_uncommitted_change_reads_back(
    index: char,
    tree: char,
    old_path: Seq<char>,
    path: Seq<char>,
)
    requires
        index <= '\u{7f}',
        tree <= '\u{7f}',
        path.len() > 0,
        !has_text(path, " -> "@),
        !has_text(old_path + " -"@, " -> "@),
    ensures
        porcelain_entry(seq![index, tree, ' '] + path) == Some((seq![index, tree], path)),
        porcelain_entry(seq![index, tree, ' '] + (old_path + " -> "@ + path)) == Some(
            (seq![index, tree], path),
        ),
{
    reveal_strlit(" -> ");
    let renamed = old_path + " -> "@ + path;
    lemma_find_text(path, " -> "@);
    lemma_first_arrow(old_path, path);
    lemma_porcelain_line(index, tree, ' ', path);
    lemma_porcelain_line(index, tree, ' ', renamed);
    assert(renamed.skip(old_path.len() + 4int) =~= path);
}

proof fn lemma_scanned_worktrees(lines: Seq<Seq<char>>, main_dir: Seq<char>)
    ensures
        forall|i: int|
            0 <= i < scanned_worktrees(lines, main_dir).found.len() ==> parts_of(
                (#[trigger] scanned_worktrees(lines, main_dir).found[i]).path,
            ) != parts_of(main_dir),
    decreases lines.len(),
{
    if lines.len() > 0 {
        lemma_scanned_worktrees(lines.drop_last(), main_dir);
    }
}

/// The main checkout is never listed among the worktrees.
pub proof fn law_main_checkout_is_left_out(output: Seq<char>, main_dir: Seq<char>)
    ensures
        forall|i: int|
            0 <= i < worktrees_in(output, main_dir).len() ==> parts_of(
                (#[trigger] worktrees_in(output, main_dir)[i]).path,
            ) != parts_of(main_dir),
{
    lemma_scanned_worktrees(lines_of(output), main_dir);
}

/// Each line of a listing counts at most once.
pub proof fn law_changes_count_once(lines: Seq<Seq<char>>)
    ensures
        change_count(lines, Change::Added) + change_count(lines, Change::Modified) + change_count(
            lines,
            Change::Deleted,
        ) <= lines.len(),
    decreases lines.len(),
{
    reveal(Seq::filter);
    if lines.len() > 0 {
        let rest = lines.drop_last();
        law_changes_count_once(rest);
        assert(lines =~= rest.push(lines.last()));
        rest.lemma_filter_push(
            lines.last(),
            |line: Seq<char>| line_change(line) == Some(Change::Added),
        );
        rest.lemma_filter_push(
            lines.last(),
            |line: Seq<char>| line_change(line) == Some(Change::Modified),
        );
        rest.lemma_filter_push(
            lines.last(),
            |line: Seq<char>| line_change(line) == Some(Change::Deleted),
        );
    }
}

/// The paths of the files that are untracked, or of those that are not.
pub open spec fn paths_where(files: Seq<FileView>, untracked: bool) -> Seq<Seq<char>> {
    files.filter(|file: FileView| file.untracked == untracked).map_values(
        |file: FileView| file.path,
    )
}

proof fn lemma_discard_touches(lines: Seq<Seq<char>>, untracked: bool)
    ensures
        lines.filter_map(|line: Seq<char>| discarded_path(line, untracked)) == paths_where(
            lines.filter_map(|line: Seq<char>| uncommitted_file(line)),
            untracked,
        ),
    decreases lines.len(),
{
    let keep = |file: FileView| file.untracked == untracked;
    let show = |file: FileView| file.path;
    let parse = |line: Seq<char>| uncommitted_file(line);
    let path = |line: Seq<char>| discarded_path(line, untracked);
    if lines.len() == 0 {
        reveal(Seq::filter);
        assert(lines.filter_map(path) =~= paths_where(lines.filter_map(parse), untracked));
    } else {
        let rest = lines.drop_last();
        lemma_discard_touches(rest, untracked);
        let files = rest.filter_map(parse);
        match uncommitted_file(lines.last()) {
            Some(file) => {
                assert(lines.filter_map(parse) =~= files.push(file));
                files.lemma_filter_push(file, keep);
                assert(lines.filter_map(path) =~= paths_where(files.push(file), untracked));
            },
            None => {
                assert(lines.filter_map(parse) =~= files);
                assert(lines.filter_map(path) =~= paths_where(files, untracked));
            },
        }
    }
}

/// A discard touches the uncommitted files that are listed, and no others: it deletes the
/// untracked ones and restores the rest, in their order.
pub proof fn law_discard_touches_listed_files(output: OutputView)
    requires
        output.success,
    ensures
        ({
            let files = uncommitted_told(Ok(output));
            &&& discarded(output.stdout, true) == paths_where(files, true)
            &&& discarded(output.stdout, false) == paths_where(files, false)
        }),
{
    lemma_discard_touches(lines_of(output.stdout), true);
    lemma_discard_touches(lines_of(output.stdout), false);
}

/// A diff that is shown has at least one line.
pub proof fn law_diff_is_never_empty(run: Result<OutputView, Seq<char>>, none: Seq<char>)
    ensures
        diff_told(run, none).len() >= 1,
        file_diff_told(run).len() >= 1,
{
}

/// A question that is not answered leaves its part of the details as it is before anything is
/// known, whatever the other answers are.
pub proof fn law_unanswered_questions_leave_defaults(
    log: Result<OutputView, Seq<char>>,
    distance: Result<OutputView, Seq<char>>,
    status: Result<OutputView, Seq<char>>,
    stash: Result<OutputView, Seq<char>>,
    heads: Result<OutputView, Seq<char>>,
)
    ensures
        ({
            let details = details_told(log, distance, status, stash, heads);
            &&& success_text(log) is None ==> details.commit_hash.len() == 0
                && details.commit_subject.len() == 0 && details.commit_author.len() == 0
                && details.commit_rel_date.len() == 0 && details.commit_timestamp == 0
            &&& success_text(distance) is None ==> details.behind is None && details.ahead is None
            &&& status is Err ==> details.dirty_count == 0
            &&& stash is Err ==> details.stash_count == 0
            &&& success_text(heads) is None ==> details.branch_count == 0
        }),
{
}

/// How many questions the search for the base branch may still ask.
pub open spec fn questions_left(search: BaseView) -> int {
    match search {
        BaseView::RemoteHead => 1int + BASE_CANDIDATES@.len(),
        BaseView::Candidate(place) => BASE_CANDIDATES@.len() - place,
        BaseView::Over(_) => 0,
    }
}

/// The search for the base branch ends: each answer leaves fewer questions, and a candidate is
/// named only where it was found to exist.
pub proof fn law_base_search_ends(search: BaseView, run: Result<OutputView, Seq<char>>)
    requires
        search matches BaseView::Candidate(place) ==> 0 <= place < BASE_CANDIDATES@.len(),
    ensures
        questions_left(search.answered(run)) >= 0,
        !(search is Over) ==> questions_left(search.answered(run)) < questions_left(search),
        search matches BaseView::Candidate(place) ==> (search.answered(run) matches BaseView::Over(
            Some(branch),
        ) ==> branch == BASE_CANDIDATES@[place]@ && success_text(run) is Some),
{
}

} // verus!

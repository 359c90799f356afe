//! Laws of what is made of git's answers: each holds of every answer, line by line where the
//! answer is a listing.

use vstd::prelude::*;
use vstd::string::*;

use crate::git::{
    branch_of_line, branch_told, branches_told, change_count, commit_fields, countable,
    details_told, diff_told, discard_told, discarded, distance_in, distance_told, entry_count,
    feature_count, file_diff_told, file_of_line, files_told, is_cuttable, is_porcelain, line_change,
    merge_base_told, normalized, porcelain_entry, remote_told, scanned_worktrees, stash_names_told,
    stashed_files, stashes_told, success_text, track_counts, two_bytes, uncommitted_file,
    uncommitted_told, worktrees_in, BaseView, Change, WorktreeScan, BASE_CANDIDATES,
    FIELD_SEPARATOR,
};
use crate::git_laws::{lemma_first_arrow, lemma_porcelain_line};
use crate::info::{no_details, FileView, StashView, WorktreeView};
use crate::number::{i64_of, u32_of};
use crate::output::{step_of, OutputView};
use crate::path::parts_of;
use crate::text::{
    byte_len_of, has_text, is_blank, is_white, joined_with, law_blank_lines_are_dropped,
    law_blank_text_is_white, law_no_lines_in_nothing, law_pieces_of_plain_text,
    law_pieces_of_two_sides, law_prefix_is_taken_off, law_split_undoes_join,
    law_trimmed_text_is_tight, law_trimming_keeps_tight_text,
    law_white_space_around_makes_no_difference, lemma_find_text, lines_of, pieces, trimmed,
    trimmed_lines_of, without_back, words_of, CharSet,
};

verus! {

/// Two answers that exited with success, of which one has a line more than the other, whatever
/// else there is of them.
pub open spec fn one_line_more(less: OutputView, more: OutputView, line: Seq<char>) -> bool {
    less.success && more.success && lines_of(more.stdout) == lines_of(less.stdout).push(line)
}

proof fn lemma_filter_map_push<A, B>(items: Seq<A>, item: A, make: spec_fn(A) -> Option<B>)
    ensures
        items.push(item).filter_map(make) == (match make(item) {
            Some(made) => items.filter_map(make).push(made),
            None => items.filter_map(make),
        }),
        Seq::<A>::empty().filter_map(make) == Seq::<B>::empty(),
{
    let more = items.push(item);
    more.lemma_filter_map_take_succ(make, items.len() as int);
    assert(more.take(items.len() as int) =~= items);
    assert(more.take(items.len() + 1int) =~= more);
    assert(more[items.len() as int] == item);
}

proof fn lemma_filter_map_none<A, B>(items: Seq<A>, make: spec_fn(A) -> Option<B>)
    ensures
        items.len() == 0 ==> items.filter_map(make) == Seq::<B>::empty(),
{
    if items.len() == 0 {
        assert(items =~= Seq::<A>::empty());
    }
}

// ---------------------------------------------------------------------------
// Single values

/// Only success counts of a command that hands nothing over: a failure is told by what the command
/// wrote to stderr, or by why it could not be started.
pub proof fn law_step_fails_with_its_reason(output: OutputView, reason: Seq<char>)
    ensures
        step_of(Ok(output)) is Ok <==> output.success,
        step_of(Ok(output)) matches Err(message) ==> message == trimmed(output.stderr),
        step_of(Err(reason)) == Err::<(), Seq<char>>(reason),
{
}

/// What a command wrote counts exactly if it exited with success.
pub proof fn law_only_success_is_heard(output: OutputView, reason: Seq<char>)
    ensures
        output.success ==> success_text(Ok(output)) == Some(output.stdout),
        !output.success ==> success_text(Ok(output)) is None,
        success_text(Err(reason)) is None,
{
}

/// The current branch is what git wrote, without the white space around it, whatever its exit
/// status; where it wrote white space alone it is "?".
pub proof fn law_current_branch_reads_back(
    before: Seq<char>,
    name: Seq<char>,
    behind: Seq<char>,
    output: OutputView,
    reason: Seq<char>,
)
    requires
        crate::text::all_white(before),
        crate::text::all_white(behind),
        name.len() > 0,
        !is_white(name[0]),
        !is_white(name.last()),
    ensures
        branch_told(Ok(OutputView { stdout: before + name + behind, ..output })) == Ok::<
            Seq<char>,
            Seq<char>,
        >(name),
        branch_told(Ok(OutputView { stdout: before, ..output })) == Ok::<Seq<char>, Seq<char>>(
            "?"@,
        ),
        branch_told(Err(reason)) == Err::<Seq<char>, Seq<char>>(reason),
{
    law_white_space_around_makes_no_difference(before, name, behind);
    law_blank_text_is_white(before);
}

/// One more line adds one to the count of entries if it holds more than white space, and nothing
/// otherwise; the count is kept in 32 bits, and the exit status does not matter to it. Without an
/// answer, and without a line, the count is zero.
pub proof fn law_entries_are_counted_by_line(
    less: OutputView,
    more: OutputView,
    line: Seq<char>,
    reason: Seq<char>,
)
    requires
        lines_of(more.stdout) == lines_of(less.stdout).push(line),
    ensures
        entry_count(Ok(more)) == (entry_count(Ok(less)) + (if is_blank(line) {
            0int
        } else {
            1int
        })) % 0x1_0000_0000,
        lines_of(less.stdout).len() == 0 ==> entry_count(Ok(less)) == 0,
        entry_count(Err(reason)) == 0,
{
    law_blank_lines_are_dropped(less.stdout, more.stdout, line);
    law_no_lines_in_nothing(less.stdout);
}

// ---------------------------------------------------------------------------
// Remote addresses

/// An address that begins with `https://` is kept as it is, but for one ".git" at its end.
pub proof fn law_https_address_is_kept(rest: Seq<char>)
    requires
        rest.len() == 0 || !is_white(rest.last()),
    ensures
        (forall|front: Seq<char>| "https://"@ + rest != #[trigger] (front + ".git"@)) ==> normalized(
            "https://"@ + rest,
        ) == Some("https://"@ + rest),
        normalized("https://"@ + rest + ".git"@) == Some("https://"@ + rest),
{
    reveal_strlit("https://");
    reveal_strlit(".git");
    let plain = "https://"@ + rest;
    let whole = plain + ".git"@;
    assert(plain[0] == 'h' && plain[4] == 's');
    assert(whole[0] == 'h' && whole[4] == 's');
    assert(plain.last() == if rest.len() == 0 {
        '/'
    } else {
        rest.last()
    });
    assert(whole.last() == 't');
    law_trimming_keeps_tight_text(plain);
    law_trimming_keeps_tight_text(whole);
    lemma_secure(plain);
    lemma_secure(whole);
    assert(plain.subrange(0, 8) =~= "https://"@);
    assert(whole.subrange(0, 8) =~= "https://"@);
    crate::text::law_suffix_is_taken_off(plain, ".git"@);
}

proof fn lemma_secure(address: Seq<char>)
    requires
        address.len() > 4,
        address[0] == 'h',
        address[4] == 's',
    ensures
        !"git@"@.is_prefix_of(address),
        !"ssh://"@.is_prefix_of(address),
        !"http://"@.is_prefix_of(address),
{
    reveal_strlit("http://");
    reveal_strlit("git@");
    reveal_strlit("ssh://");
    if "git@"@.is_prefix_of(address) {
        assert(address.subrange(0, 4)[0] == 'g');
    }
    if "ssh://"@.is_prefix_of(address) {
        assert(address.subrange(0, 6)[0] == 's');
    }
    if "http://"@.is_prefix_of(address) {
        assert(address.subrange(0, 7)[4] == ':');
    }
}

/// An address in the scp-like form comes to its host and its path, parted by a slash, but for one
/// ".git" at its end.
pub proof fn law_scp_address_names_host_and_path(host: Seq<char>, path: Seq<char>)
    requires
        !host.contains(':'),
        path.len() == 0 || !is_white(path.last()),
    ensures
        (forall|front: Seq<char>|
            "https://"@ + host + "/"@ + path != #[trigger] (front + ".git"@)) ==> normalized(
            "git@"@ + host + ":"@ + path,
        ) == Some("https://"@ + host + "/"@ + path),
        normalized("git@"@ + host + ":"@ + path + ".git"@) == Some(
            "https://"@ + host + "/"@ + path,
        ),
{
    reveal_strlit(".git");
    assert((path + ".git"@).last() == 't');
    lemma_scp(host, path);
    lemma_scp(host, path + ".git"@);
    let plain = "https://"@ + host + "/"@ + path;
    assert("git@"@ + host + ":"@ + (path + ".git"@) =~= "git@"@ + host + ":"@ + path + ".git"@);
    assert("https://"@ + host + "/"@ + (path + ".git"@) =~= plain + ".git"@);
    crate::text::law_suffix_is_taken_off(plain, ".git"@);
}

proof fn lemma_scp(host: Seq<char>, path: Seq<char>)
    requires
        !host.contains(':'),
        path.len() == 0 || !is_white(path.last()),
    ensures
        normalized("git@"@ + host + ":"@ + path) == Some(
            crate::text::without_suffix("https://"@ + host + "/"@ + path, ".git"@),
        ),
{
    reveal_strlit("git@");
    reveal_strlit(":");
    let raw = "git@"@ + host + ":"@ + path;
    let rest = host + ":"@ + path;
    assert(raw[0] == 'g');
    assert(raw.last() == if path.len() == 0 {
        ':'
    } else {
        path.last()
    });
    law_trimming_keeps_tight_text(raw);
    assert(raw =~= "git@"@ + rest);
    law_prefix_is_taken_off(rest, "git@"@);
    assert(":"@ =~= seq![':']);
    crate::text::lemma_lacking_char(host, ':');
    assert(host + ":"@.drop_last() =~= host);
    crate::text::law_first_separator_parts(host, ":"@, path);
}

/// An ssh address comes to what the https address with the same rest comes to, with or without
/// the user "git" in it.
pub proof fn law_ssh_address_is_that_of_https(rest: Seq<char>)
    requires
        rest.len() == 0 || !is_white(rest.last()),
    ensures
        (forall|behind: Seq<char>| rest != #[trigger] ("git@"@ + behind)) ==> normalized(
            "ssh://"@ + rest,
        ) == normalized("https://"@ + rest),
        normalized("ssh://git@"@ + rest) == normalized("https://"@ + rest),
{
    reveal_strlit("https://");
    reveal_strlit("ssh://");
    reveal_strlit("ssh://git@");
    reveal_strlit("git@");
    let plain = "https://"@ + rest;
    let ssh = "ssh://"@ + rest;
    let user = "ssh://git@"@ + rest;
    let named = "git@"@ + rest;
    assert(rest.len() > 0 ==> plain.last() == rest.last() && ssh.last() == rest.last()
        && user.last() == rest.last());
    assert(plain[0] == 'h' && plain[4] == 's' && ssh[0] == 's' && user[0] == 's');
    law_trimming_keeps_tight_text(plain);
    law_trimming_keeps_tight_text(ssh);
    law_trimming_keeps_tight_text(user);
    lemma_secure(plain);
    assert(plain.subrange(0, 8) =~= "https://"@);
    assert(!"git@"@.is_prefix_of(ssh)) by {
        if "git@"@.is_prefix_of(ssh) {
            assert(ssh.subrange(0, 4)[0] == 'g');
        }
    }
    assert(!"git@"@.is_prefix_of(user)) by {
        if "git@"@.is_prefix_of(user) {
            assert(user.subrange(0, 4)[0] == 'g');
        }
    }
    law_prefix_is_taken_off(rest, "ssh://"@);
    assert(user =~= "ssh://"@ + named);
    law_prefix_is_taken_off(named, "ssh://"@);
    law_prefix_is_taken_off(rest, "git@"@);
}

/// What begins in none of the four known ways is no address, and neither is an scp-like form
/// without a colon or white space alone.
pub proof fn law_unknown_forms_are_no_address(raw: Seq<char>)
    ensures
        is_blank(raw) ==> normalized(raw) is None,
        !"git@"@.is_prefix_of(trimmed(raw)) && !"ssh://"@.is_prefix_of(trimmed(raw))
            && !"http://"@.is_prefix_of(trimmed(raw)) && !"https://"@.is_prefix_of(trimmed(raw))
            ==> normalized(raw) is None,
        "git@"@.is_prefix_of(trimmed(raw)) && !has_text(trimmed(raw).skip(4), ":"@)
            ==> normalized(raw) is None,
{
    reveal_strlit("git@");
    if "git@"@.is_prefix_of(trimmed(raw)) {
        lemma_find_text(trimmed(raw).skip(4), ":"@);
    }
}

/// White space around an address makes no difference, and the address of the remote is what git
/// wrote, where it exited with success.
pub proof fn law_remote_address_is_what_git_wrote(output: OutputView, reason: Seq<char>)
    ensures
        normalized(trimmed(output.stdout)) == normalized(output.stdout),
        output.success ==> remote_told(Ok(output)) == normalized(output.stdout),
        !output.success ==> remote_told(Ok(output)) is None,
        remote_told(Err(reason)) is None,
{
    let raw = output.stdout;
    if is_blank(raw) {
        assert(trimmed(raw) =~= Seq::<char>::empty());
        law_blank_text_is_white(Seq::<char>::empty());
    } else {
        law_trimmed_text_is_tight(raw);
        law_trimming_keeps_tight_text(trimmed(raw));
    }
}

// ---------------------------------------------------------------------------
// Commits and distances

/// A line of a commit with fewer fields leaves the others empty, and a time that is no number
/// counts as zero; further fields do not count.
pub proof fn law_commit_fields_by_place(fields: Seq<Seq<char>>)
    requires
        fields.len() > 0,
        forall|i: int| 0 <= i < fields.len() ==> !(#[trigger] fields[i]).contains(FIELD_SEPARATOR),
        ({
            let line = joined_with(fields, seq![FIELD_SEPARATOR]);
            line.len() == 0 || line.last() != '\n' && line.last() != '\r'
        }),
    ensures
        ({
            let commit = commit_fields(joined_with(fields, seq!['\u{1f}']));
            let none = Seq::<char>::empty();
            &&& commit.0 == fields[0]
            &&& commit.1 == (if fields.len() >= 2 { fields[1] } else { none })
            &&& commit.2 == (if fields.len() >= 3 { fields[2] } else { none })
            &&& commit.3 == (if fields.len() >= 4 { fields[3] } else { none })
            &&& fields.len() < 5 ==> commit.4 == 0
            &&& fields.len() >= 5 ==> match i64_of(trimmed(fields[4])) {
                Some(time) => commit.4 == time,
                None => commit.4 == 0,
            }
        }),
{
    let line = joined_with(fields, seq![FIELD_SEPARATOR]);
    law_split_undoes_join(fields, FIELD_SEPARATOR);
    assert(without_back(line, CharSet::LineEnd) == line);
}

/// Line ends at the end of a commit's line do not count.
pub proof fn law_line_ends_of_a_commit_do_not_count(line: Seq<char>, end: char)
    requires
        end == '\n' || end == '\r',
    ensures
        commit_fields(line.push(end)) == commit_fields(line),
{
    assert(line.push(end).drop_last() =~= line);
}

/// The distance is known exactly if the first two words are numbers: first how far behind, then
/// how far ahead. Further words do not count.
pub proof fn law_distance_is_the_first_two_words(text: Seq<char>)
    ensures
        ({
            let words = words_of(text, CharSet::White);
            let known = words.len() >= 2 && u32_of(words[0]) is Some && u32_of(words[1]) is Some;
            &&& known ==> distance_in(text) == (u32_of(words[0]), u32_of(words[1]))
            &&& !known ==> distance_in(text) == (None::<u32>, None::<u32>)
        }),
{
}

/// The words of a track are read from the first to the last: the word behind "ahead" and the word
/// behind "behind" are their numbers, or zero where they are none, and any other word is passed
/// over.
pub proof fn law_track_is_read_word_by_word(
    word: Seq<char>,
    value: Seq<char>,
    rest: Seq<Seq<char>>,
    ahead: u32,
    behind: u32,
)
    ensures
        ({
            let number = match u32_of(value) {
                Some(number) => number,
                None => 0,
            };
            let none = Seq::<Seq<char>>::empty();
            &&& track_counts(none, ahead, behind) == (ahead, behind)
            &&& track_counts(seq!["ahead"@, value] + rest, ahead, behind) == track_counts(
                rest,
                number,
                behind,
            )
            &&& track_counts(seq!["behind"@, value] + rest, ahead, behind) == track_counts(
                rest,
                ahead,
                number,
            )
            &&& track_counts(seq!["ahead"@], ahead, behind) == (0u32, behind)
            &&& track_counts(seq!["behind"@], ahead, behind) == (ahead, 0u32)
            &&& word != "ahead"@ && word != "behind"@ ==> track_counts(
                seq![word] + rest,
                ahead,
                behind,
            ) == track_counts(rest, ahead, behind)
        }),
{
    reveal_strlit("ahead");
    reveal_strlit("behind");
    assert("ahead"@[0] != "behind"@[0]);
    assert((seq!["ahead"@, value] + rest).skip(2) =~= rest);
    assert((seq!["behind"@, value] + rest).skip(2) =~= rest);
    assert((seq![word] + rest).skip(1) =~= rest);
    assert((seq!["ahead"@, value] + rest)[0] == "ahead"@);
    assert((seq!["behind"@, value] + rest)[0] == "behind"@);
    assert((seq!["ahead"@, value] + rest)[1] == value);
    assert((seq!["behind"@, value] + rest)[1] == value);
    assert((seq![word] + rest)[0] == word);
    reveal_with_fuel(track_counts, 2);
}

/// A branch with an upstream that is not gone is as far from it as the words of the track say, and
/// is level with it where the track says nothing.
pub proof fn law_track_tells_the_distance(upstream: Seq<char>, track: Seq<char>)
    requires
        !is_blank(upstream),
        trimmed(track) != "gone"@,
    ensures
        is_blank(track) ==> distance_told(upstream, track) == (Some(0u32), Some(0u32)),
        !is_blank(track) ==> ({
            let counts = track_counts(words_of(trimmed(track), CharSet::CommaOrSpace), 0, 0);
            distance_told(upstream, track) == (Some(counts.0), Some(counts.1))
        }),
{
}

// ---------------------------------------------------------------------------
// Branches and worktrees

/// A branch is read off a line exactly if it has six fields and a name. It is the head only where
/// the first field is a star; the fields for the commit and its author may be missing.
pub proof fn law_branch_fields_by_place(fields: Seq<Seq<char>>)
    requires
        fields.len() > 0,
        forall|i: int| 0 <= i < fields.len() ==> !(#[trigger] fields[i]).contains(FIELD_SEPARATOR),
    ensures
        ({
            let none = Seq::<char>::empty();
            match branch_of_line(joined_with(fields, seq![FIELD_SEPARATOR])) {
                None => fields.len() < 6 || fields[1].len() == 0,
                Some(branch) => {
                    &&& fields.len() >= 6
                    &&& fields[1].len() > 0
                    &&& branch.is_head <==> fields[0] == seq!['*']
                    &&& branch.name == fields[1]
                    &&& branch.upstream is None <==> fields[2].len() == 0
                    &&& branch.upstream matches Some(name) ==> name == fields[2]
                    &&& (branch.ahead, branch.behind) == distance_told(fields[2], fields[3])
                    &&& branch.last_commit_rel == fields[4]
                    &&& branch.subject == fields[5]
                    &&& branch.commit_sha == (if fields.len() >= 7 { fields[6] } else { none })
                    &&& branch.author == (if fields.len() >= 8 { fields[7] } else { none })
                    &&& branch.stats is None
                    &&& branch.merge_base_short is None
                },
            }
        }),
{
    law_split_undoes_join(fields, FIELD_SEPARATOR);
    reveal_strlit("*");
    assert("*"@ =~= seq!['*']);
}

/// A line of a list of worktrees opens an entry, names its branch, or changes nothing. A branch is
/// named without the place of the branches before it, and any other reference as it is.
pub proof fn law_worktree_lines(
    scan: WorktreeScan,
    text: Seq<char>,
    line: Seq<char>,
    main_dir: Seq<char>,
)
    ensures
        scan.read("worktree "@ + text, main_dir) == (WorktreeScan {
            path: Some(text),
            branch: None,
            found: scan.closed_entry(main_dir),
        }),
        scan.read("branch refs/heads/"@ + text, main_dir) == (WorktreeScan {
            branch: Some(text),
            ..scan
        }),
        !"refs/heads/"@.is_prefix_of(text) ==> scan.read("branch "@ + text, main_dir) == (
        WorktreeScan { branch: Some(text), ..scan }),
        !"worktree "@.is_prefix_of(line) && !"branch "@.is_prefix_of(line) ==> scan.read(
            line,
            main_dir,
        ) == scan,
{
    reveal_strlit("worktree ");
    reveal_strlit("branch ");
    reveal_strlit("refs/heads/");
    reveal_strlit("branch refs/heads/");
    law_prefix_is_taken_off(text, "worktree "@);
    law_prefix_is_taken_off(text, "branch "@);
    let full = "refs/heads/"@ + text;
    assert("branch refs/heads/"@ + text =~= "branch "@ + full);
    law_prefix_is_taken_off(full, "branch "@);
    law_prefix_is_taken_off(text, "refs/heads/"@);
    assert forall|rest: Seq<char>| !"worktree "@.is_prefix_of(#[trigger] ("branch "@ + rest)) by {
        let whole = "branch "@ + rest;
        if "worktree "@.is_prefix_of(whole) {
            assert(whole.subrange(0, 9)[0] == 'w');
            assert(whole[0] == 'b');
        }
    }
}

/// A list of worktrees is read line by line, and the entry that was read last is closed at the
/// end.
pub proof fn law_worktrees_are_read_by_line(
    text: Seq<char>,
    lines: Seq<Seq<char>>,
    line: Seq<char>,
    main_dir: Seq<char>,
)
    ensures
        worktrees_in(text, main_dir) == scanned_worktrees(lines_of(text), main_dir).closed_entry(
            main_dir,
        ),
        scanned_worktrees(lines.push(line), main_dir) == scanned_worktrees(lines, main_dir).read(
            line,
            main_dir,
        ),
        ({
            let start = scanned_worktrees(Seq::empty(), main_dir);
            start.path is None && start.branch is None && start.found.len() == 0
        }),
{
    assert(lines.push(line).drop_last() =~= lines);
}

/// An entry of a list of worktrees is one more worktree exactly if it has a path and a branch and
/// is not the main checkout.
pub proof fn law_worktree_entry_is_closed(scan: WorktreeScan, main_dir: Seq<char>)
    ensures
        ({
            let counts = scan.path is Some && scan.branch is Some && parts_of(scan.path->0)
                != parts_of(main_dir);
            &&& counts ==> scan.closed_entry(main_dir) == scan.found.push(
                WorktreeView { branch: scan.branch->0, path: scan.path->0 },
            )
            &&& !counts ==> scan.closed_entry(main_dir) == scan.found
        }),
{
}

// ---------------------------------------------------------------------------
// Changed files

proof fn lemma_first_piece(letter: char, rest: Seq<char>)
    ensures
        letter != '\t' ==> pieces(seq![letter] + rest, CharSet::Only('\t'))[0].len() > 0
            && pieces(seq![letter] + rest, CharSet::Only('\t'))[0][0] == letter,
        pieces(seq!['\t'] + rest, CharSet::Only('\t'))[0] == Seq::<char>::empty(),
        pieces(Seq::empty(), CharSet::Only('\t')) == seq![Seq::<char>::empty()],
    decreases rest.len(),
{
    let set = CharSet::Only('\t');
    let none = Seq::<char>::empty();
    assert(none.push('\t') + rest =~= seq!['\t'] + rest);
    law_pieces_of_two_sides(none, '\t', rest, set);
    law_pieces_of_plain_text(none, set);
    let line = seq![letter] + rest;
    if letter != '\t' {
        if rest.len() == 0 {
            assert(line =~= seq![letter]);
            law_pieces_of_plain_text(line, set);
        } else {
            lemma_first_piece(letter, rest.drop_last());
            assert(line.drop_last() =~= seq![letter] + rest.drop_last());
            crate::text::lemma_pieces_len(line.drop_last(), set);
        }
    }
}

/// A line of changed files counts by its first letter alone, in either letter case: an added or
/// untracked file as added, a deleted one as deleted, one that was modified, retyped, renamed or
/// copied as modified, and any other not at all. A line without a letter does not count.
pub proof fn law_change_counts_by_its_letter(letter: char, rest: Seq<char>)
    requires
        letter != '\t',
    ensures
        ({
            let change = line_change(seq![letter] + rest);
            &&& change == Some(Change::Added) <==> letter == 'A' || letter == 'a' || letter == '?'
            &&& change == Some(Change::Deleted) <==> letter == 'D' || letter == 'd'
            &&& change == Some(Change::Modified) <==> letter == 'M' || letter == 'm' || letter
                == 'T' || letter == 't' || letter == 'R' || letter == 'r' || letter == 'C'
                || letter == 'c'
            &&& line_change(seq!['\t'] + rest) is None
            &&& line_change(Seq::empty()) is None
        }),
{
    lemma_first_piece(letter, rest);
}

/// One more line adds one to the changes that it counts as, and nothing to the others; no line
/// counts for nothing.
pub proof fn law_changes_are_counted_by_line(
    lines: Seq<Seq<char>>,
    line: Seq<char>,
    change: Change,
)
    ensures
        change_count(Seq::empty(), change) == 0,
        change_count(lines.push(line), change) == change_count(lines, change) + (if line_change(
            line,
        ) == Some(change) {
            1nat
        } else {
            0nat
        }),
{
    let counted = |line: Seq<char>| line_change(line) == Some(change);
    reveal(Seq::filter);
    assert(Seq::<Seq<char>>::empty().filter(counted) =~= Seq::empty());
    assert(lines.push(line).drop_last() =~= lines);
    assert(lines.push(line).filter(counted) =~= if counted(line) {
        lines.filter(counted).push(line)
    } else {
        lines.filter(counted)
    });
}

/// A line names a file exactly if it begins with a letter and has a second field, and its last
/// field is not empty: the file with that letter, at the path of the last field.
pub proof fn law_file_is_the_last_field(fields: Seq<Seq<char>>)
    requires
        fields.len() > 0,
        forall|i: int| 0 <= i < fields.len() ==> !(#[trigger] fields[i]).contains('\t'),
    ensures
        match file_of_line(joined_with(fields, seq!['\t'])) {
            None => fields[0].len() == 0 || fields.len() == 1 || fields.last().len() == 0,
            Some(file) => {
                &&& fields[0].len() > 0
                &&& fields.len() >= 2
                &&& fields.last().len() > 0
                &&& file.status == seq![fields[0][0]]
                &&& file.path == fields.last()
                &&& !file.untracked
            },
        },
{
    law_split_undoes_join(fields, '\t');
}

/// A listing of changed files names, line by line, the file of each line that has one; a listing
/// that failed names none.
pub proof fn law_files_are_listed_by_line(
    less: OutputView,
    more: OutputView,
    line: Seq<char>,
    failed: OutputView,
    reason: Seq<char>,
)
    requires
        one_line_more(less, more, line),
        !failed.success,
    ensures
        files_told(Ok(more)) == (match file_of_line(line) {
            Some(file) => files_told(Ok(less)).push(file),
            None => files_told(Ok(less)),
        }),
        lines_of(less.stdout).len() == 0 ==> files_told(Ok(less)).len() == 0,
        files_told(Ok(failed)).len() == 0,
        files_told(Err(reason)).len() == 0,
{
    lemma_filter_map_push(lines_of(less.stdout), line, |line: Seq<char>| file_of_line(line));
    lemma_filter_map_none(lines_of(less.stdout), |line: Seq<char>| file_of_line(line));
}

/// A listing of branches names, line by line, the branch of each line that has one; a listing that
/// failed names none.
pub proof fn law_branches_are_listed_by_line(
    less: OutputView,
    more: OutputView,
    line: Seq<char>,
    failed: OutputView,
    reason: Seq<char>,
)
    requires
        one_line_more(less, more, line),
        !failed.success,
    ensures
        branches_told(Ok(more)) == (match branch_of_line(line) {
            Some(branch) => branches_told(Ok(less)).push(branch),
            None => branches_told(Ok(less)),
        }),
        lines_of(less.stdout).len() == 0 ==> branches_told(Ok(less)).len() == 0,
        branches_told(Ok(failed)).len() == 0,
        branches_told(Err(reason)).len() == 0,
{
    lemma_filter_map_push(lines_of(less.stdout), line, |line: Seq<char>| branch_of_line(line));
    lemma_filter_map_none(lines_of(less.stdout), |line: Seq<char>| branch_of_line(line));
}

/// The files of a stash are those that are listed, in their order, each flagged as untracked
/// exactly if it is listed among the untracked ones; where these are not known, none is flagged.
pub proof fn law_stashed_files_are_flagged(
    run: Result<OutputView, Seq<char>>,
    tree: OutputView,
    failed: OutputView,
    reason: Seq<char>,
)
    requires
        tree.success,
        !failed.success,
    ensures
        ({
            let files = files_told(run);
            let shown = stashed_files(run, Ok(tree));
            &&& shown.len() == files.len()
            &&& forall|i: int|
                0 <= i < files.len() ==> (#[trigger] shown[i]).status == files[i].status
                    && shown[i].path == files[i].path && (shown[i].untracked <==> files[i].untracked
                    || lines_of(tree.stdout).contains(files[i].path))
            &&& stashed_files(run, Ok(failed)) == files
            &&& stashed_files(run, Err(reason)) == files
        }),
{
}

// ---------------------------------------------------------------------------
// Uncommitted files

proof fn lemma_code_side(index: char, tree: char)
    ensures
        ({
            let code = seq![index, tree];
            &&& !is_white(index) ==> trimmed(code).len() > 0 && trimmed(code)[0] == index
            &&& is_white(index) && !is_white(tree) ==> trimmed(code) == seq![tree]
            &&& is_white(index) && is_white(tree) ==> trimmed(code).len() == 0
        }),
{
    let code = seq![index, tree];
    let none = Seq::<char>::empty();
    if !is_white(index) {
        if is_white(tree) {
            assert(none + seq![index] + seq![tree] =~= code);
            law_white_space_around_makes_no_difference(none, seq![index], seq![tree]);
        } else {
            assert(code.last() == tree);
            law_trimming_keeps_tight_text(code);
        }
    } else if !is_white(tree) {
        assert(seq![index] + seq![tree] + none =~= code);
        law_white_space_around_makes_no_difference(seq![index], seq![tree], none);
    } else {
        law_blank_text_is_white(code);
    }
}

/// The status of an uncommitted file is read back from the two letters of its code. Of a file
/// that is not untracked it is the letter of the index, or that of the worktree where the index
/// has none, and "M" where neither has; an untracked file is one with the code "??". The path is
/// what stands behind the code and one more character; of a rename, the new path, which is all
/// that stands behind the first arrow.
pub proof fn law_uncommitted_status_reads_back(
    index: char,
    tree: char,
    gap: char,
    old_path: Seq<char>,
    path: Seq<char>,
)
    requires
        index <= '\u{7f}',
        tree <= '\u{7f}',
        !has_text(old_path + " -"@, " -> "@),
    ensures
        ({
            let untracked = index == '?' && tree == '?';
            let status = if untracked {
                seq!['?']
            } else if !is_white(index) {
                seq![index]
            } else if !is_white(tree) {
                seq![tree]
            } else {
                seq!['M']
            };
            let file = Some(FileView { status, path, untracked });
            &&& path.len() > 0 && !has_text(path, " -> "@) ==> uncommitted_file(
                seq![index, tree, gap] + path,
            ) == file
            &&& uncommitted_file(seq![index, tree, gap] + (old_path + " -> "@ + path)) == file
        }),
{
    let untracked = index == '?' && tree == '?';
    let status = if untracked {
        seq!['?']
    } else if !is_white(index) {
        seq![index]
    } else if !is_white(tree) {
        seq![tree]
    } else {
        seq!['M']
    };
    let code = seq![index, tree];
    reveal_strlit("??");
    reveal_strlit("?");
    reveal_strlit("M");
    reveal_strlit(" -> ");
    assert("?"@ =~= seq!['?']);
    assert("M"@ =~= seq!['M']);
    assert(code == "??"@ <==> untracked) by {
        if code == "??"@ {
            assert(code[0] == '?' && code[1] == '?');
        }
        if untracked {
            assert(code =~= "??"@);
        }
    }
    lemma_code_side(index, tree);
    let renamed = old_path + " -> "@ + path;
    lemma_first_arrow(old_path, path);
    assert(renamed.skip(old_path.len() + 4int) =~= path);
    lemma_find_text(path, " -> "@);
    if path.len() > 0 {
        lemma_porcelain_line(index, tree, gap, path);
        let line = seq![index, tree, gap] + path;
        assert(uncommitted_file(line)->0.status =~= status);
    }
    lemma_porcelain_line(index, tree, gap, renamed);
    let other = seq![index, tree, gap] + renamed;
    assert(uncommitted_file(other)->0.status =~= status);
}

/// The letter of the index counts first: a change of the worktree makes no difference to the
/// status of a file that has one in the index too, unless it is untracked.
pub proof fn law_index_side_counts_first(index: char, tree: char, other: char, path: Seq<char>)
    requires
        index <= '\u{7f}',
        tree <= '\u{7f}',
        other <= '\u{7f}',
        !is_white(index),
        index != '?',
        path.len() > 0,
        !has_text(path, " -> "@),
    ensures
        uncommitted_file(seq![index, tree, ' '] + path) == uncommitted_file(
            seq![index, other, ' '] + path,
        ),
{
    reveal_strlit(" -");
    reveal_strlit(" -> ");
    let none = Seq::<char>::empty();
    assert(!has_text(none + " -"@, " -> "@));
    law_uncommitted_status_reads_back(index, tree, ' ', none, path);
    law_uncommitted_status_reads_back(index, other, ' ', none, path);
}

/// A line names an uncommitted file exactly if it has at least four bytes.
pub proof fn law_short_lines_name_no_file(line: Seq<char>)
    ensures
        uncommitted_file(line) is Some <==> byte_len_of(line) >= 4,
        porcelain_entry(line) is Some <==> byte_len_of(line) >= 4,
{
}

/// A code may be one character of two bytes, which is then the status, unless it is white space.
/// The path is read as behind any other code.
pub proof fn law_code_is_two_bytes(
    letter: char,
    gap: char,
    old_path: Seq<char>,
    path: Seq<char>,
)
    requires
        two_bytes(letter),
        !has_text(old_path + " -"@, " -> "@),
    ensures
        ({
            let status = if is_white(letter) {
                seq!['M']
            } else {
                seq![letter]
            };
            let file = Some(FileView { status, path, untracked: false });
            let line = seq![letter, gap] + path;
            let renamed = seq![letter, gap] + (old_path + " -> "@ + path);
            &&& byte_len_of(line) >= 4 && !has_text(path, " -> "@) ==> uncommitted_file(line)
                == file
            &&& byte_len_of(renamed) >= 4 ==> uncommitted_file(renamed) == file
        }),
{
    let status = if is_white(letter) {
        seq!['M']
    } else {
        seq![letter]
    };
    let renamed = old_path + " -> "@ + path;
    reveal_strlit("??");
    reveal_strlit("M");
    reveal_strlit(" -> ");
    assert("M"@ =~= seq!['M']);
    assert(seq![letter] != "??"@) by {
        assert(seq![letter].len() == 1);
    }
    if is_white(letter) {
        law_blank_text_is_white(seq![letter]);
    } else {
        law_trimming_keeps_tight_text(seq![letter]);
    }
    lemma_first_arrow(old_path, path);
    assert(renamed.skip(old_path.len() + 4int) =~= path);
    lemma_find_text(path, " -> "@);
    let line = seq![letter, gap] + path;
    assert(line[0] == letter);
    assert(line.take(1) =~= seq![letter]);
    assert(line.skip(2) =~= path);
    let other = seq![letter, gap] + renamed;
    assert(other[0] == letter);
    assert(other.take(1) =~= seq![letter]);
    assert(other.skip(2) =~= renamed);
    if byte_len_of(line) >= 4 {
        assert(uncommitted_file(line)->0.status =~= status);
    }
    if byte_len_of(other) >= 4 {
        assert(uncommitted_file(other)->0.status =~= status);
    }
}

/// A line can be read if it is too short to name a file, or begins with three ASCII characters, or
/// with one of two bytes and one of ASCII; a listing can be read if each of its lines can.
pub proof fn law_lines_that_can_be_cut(line: Seq<char>, text: Seq<char>)
    ensures
        is_cuttable(line) <==> {
            ||| byte_len_of(line) < 4
            ||| line.len() >= 3 && line[0] < '\u{80}' && line[1] < '\u{80}' && line[2] < '\u{80}'
            ||| line.len() >= 2 && '\u{80}' <= line[0] && line[0] < '\u{800}' && line[1]
                < '\u{80}'
        },
        is_porcelain(text) <==> forall|i: int|
            0 <= i < lines_of(text).len() ==> is_cuttable(#[trigger] lines_of(text)[i]),
{
}

/// A listing can be counted if it has no more lines than 32 bits count.
pub proof fn law_listing_can_be_counted(text: Seq<char>)
    requires
        lines_of(text).len() <= 0xffff_ffff,
    ensures
        countable(text),
{
    assert forall|change: Change| #[trigger] change_count(lines_of(text), change)
        <= u32::MAX by {
        crate::git_laws::law_changes_count_once(lines_of(text));
    }
}

/// A listing of uncommitted files names, line by line, the file of each line that has one; a
/// listing that failed names none.
pub proof fn law_uncommitted_files_are_listed_by_line(
    less: OutputView,
    more: OutputView,
    line: Seq<char>,
    failed: OutputView,
    reason: Seq<char>,
)
    requires
        one_line_more(less, more, line),
        !failed.success,
    ensures
        uncommitted_told(Ok(more)) == (match uncommitted_file(line) {
            Some(file) => uncommitted_told(Ok(less)).push(file),
            None => uncommitted_told(Ok(less)),
        }),
        lines_of(less.stdout).len() == 0 ==> uncommitted_told(Ok(less)).len() == 0,
        uncommitted_told(Ok(failed)).len() == 0,
        uncommitted_told(Err(reason)).len() == 0,
{
    lemma_filter_map_push(lines_of(less.stdout), line, |line: Seq<char>| uncommitted_file(line));
    lemma_filter_map_none(lines_of(less.stdout), |line: Seq<char>| uncommitted_file(line));
}

/// What a discard would touch is known exactly if the listing exited with success: first what it
/// would restore, then what it would delete. A failure is told by what git wrote to stderr.
pub proof fn law_discard_is_known_on_success(output: OutputView, reason: Seq<char>)
    ensures
        discard_told(Err(reason)) == Err::<(Seq<Seq<char>>, Seq<Seq<char>>), Seq<char>>(reason),
        output.success ==> discard_told(Ok(output)) == Ok::<
            (Seq<Seq<char>>, Seq<Seq<char>>),
            Seq<char>,
        >((discarded(output.stdout, false), discarded(output.stdout, true))),
        !output.success ==> discard_told(Ok(output)) == Err::<
            (Seq<Seq<char>>, Seq<Seq<char>>),
            Seq<char>,
        >(trimmed(output.stderr)),
{
}

// ---------------------------------------------------------------------------
// Stashes, details and diffs

/// The stash entries are the lines that hold more than white space, in their order, each numbered
/// by how many stand before it; a listing that failed has none.
pub proof fn law_stashes_are_numbered(
    less: OutputView,
    more: OutputView,
    line: Seq<char>,
    failed: OutputView,
    reason: Seq<char>,
)
    requires
        one_line_more(less, more, line),
        !failed.success,
    ensures
        is_blank(line) ==> stashes_told(Ok(more)) == stashes_told(Ok(less)),
        !is_blank(line) ==> stashes_told(Ok(more)) == stashes_told(Ok(less)).push(
            (StashView { index: stashes_told(Ok(less)).len() as usize, label: line }),
        ),
        lines_of(less.stdout).len() == 0 ==> stashes_told(Ok(less)).len() == 0,
        stashes_told(Ok(failed)).len() == 0,
        stashes_told(Err(reason)).len() == 0,
{
    law_blank_lines_are_dropped(less.stdout, more.stdout, line);
    law_no_lines_in_nothing(less.stdout);
    if !is_blank(line) {
        assert(stashes_told(Ok(more)) =~= stashes_told(Ok(less)).push(
            StashView { index: stashes_told(Ok(less)).len() as usize, label: line },
        ));
    }
}

/// The files of a stash entry are the lines that are not empty, in their order; a failure is told
/// by what git wrote to stderr.
pub proof fn law_stash_names_are_listed_by_line(
    less: OutputView,
    more: OutputView,
    line: Seq<char>,
    failed: OutputView,
    reason: Seq<char>,
)
    requires
        one_line_more(less, more, line),
        !failed.success,
    ensures
        stash_names_told(Ok(less)) is Ok,
        stash_names_told(Ok(more)) matches Ok(names) && names == (if line.len() == 0 {
            stash_names_told(Ok(less))->Ok_0
        } else {
            stash_names_told(Ok(less))->Ok_0.push(line)
        }),
        lines_of(less.stdout).len() == 0 ==> stash_names_told(Ok(less))->Ok_0.len() == 0,
        stash_names_told(Ok(failed)) == Err::<Seq<Seq<char>>, Seq<char>>(trimmed(failed.stderr)),
        stash_names_told(Err(reason)) == Err::<Seq<Seq<char>>, Seq<char>>(reason),
{
    let kept = |word: Seq<char>| word.len() > 0;
    let lines = lines_of(less.stdout);
    reveal(Seq::filter);
    assert(lines.push(line).drop_last() =~= lines);
}

/// Each branch that is listed counts as a feature branch but "main" and "dev"; blank lines do not
/// count. The count is kept in 32 bits.
pub proof fn law_feature_branches_are_counted_by_line(
    less: Seq<char>,
    more: Seq<char>,
    line: Seq<char>,
)
    requires
        lines_of(more) == lines_of(less).push(line),
    ensures
        feature_count(more) == (feature_count(less) + (if is_blank(line) || trimmed(line)
            == "main"@ || trimmed(line) == "dev"@ {
            0int
        } else {
            1int
        })) % 0x1_0000_0000,
        lines_of(less).len() == 0 ==> feature_count(less) == 0,
{
    law_blank_lines_are_dropped(less, more, line);
    law_no_lines_in_nothing(less);
    let kept = |name: Seq<char>| !crate::git::is_excluded(name);
    let names = trimmed_lines_of(less);
    let all = trimmed_lines_of(more);
    reveal(Seq::filter);
    if !is_blank(line) {
        assert(all.drop_last() =~= names);
        assert(all.filter(kept) =~= if kept(trimmed(line)) {
            names.filter(kept).push(trimmed(line))
        } else {
            names.filter(kept)
        });
    }
}

/// Each part of the details comes from its own question: the commit from the log, the distance
/// from the comparison with the upstream, the counts from the status, the stash and the branches.
pub proof fn law_details_come_from_their_questions(
    log: Result<OutputView, Seq<char>>,
    distance: Result<OutputView, Seq<char>>,
    status: Result<OutputView, Seq<char>>,
    stash: Result<OutputView, Seq<char>>,
    heads: Result<OutputView, Seq<char>>,
)
    ensures
        ({
            let details = details_told(log, distance, status, stash, heads);
            &&& log matches Ok(output) ==> (output.success ==> (
                details.commit_hash,
                details.commit_subject,
                details.commit_author,
                details.commit_rel_date,
                details.commit_timestamp,
            ) == commit_fields(output.stdout))
            &&& distance matches Ok(output) ==> (output.success ==> (
                details.behind,
                details.ahead,
            ) == distance_in(output.stdout))
            &&& details.dirty_count == entry_count(status)
            &&& details.stash_count == entry_count(stash)
            &&& heads matches Ok(output) ==> (output.success ==> details.branch_count
                == feature_count(output.stdout))
        }),
{
}

/// Where no question was answered the details are those of a repository of which nothing is known,
/// and these are empty, unknown or zero.
pub proof fn law_unknown_details_are_empty(reason: Seq<char>)
    ensures
        ({
            let run = Err::<OutputView, Seq<char>>(reason);
            let none = no_details();
            &&& details_told(run, run, run, run, run) == none
            &&& none.commit_hash.len() == 0 && none.commit_subject.len() == 0
            &&& none.commit_author.len() == 0 && none.commit_rel_date.len() == 0
            &&& none.commit_timestamp == 0
            &&& none.ahead is None && none.behind is None
            &&& none.dirty_count == 0 && none.stash_count == 0 && none.branch_count == 0
        }),
{
}

/// A diff shows the lines that git wrote, whatever its exit status, and a placeholder where it
/// wrote none or could not be run.
pub proof fn law_diff_shows_what_git_wrote(
    output: OutputView,
    none: Seq<char>,
    reason: Seq<char>,
)
    ensures
        lines_of(output.stdout).len() > 0 ==> diff_told(Ok(output), none) == lines_of(
            output.stdout,
        ),
        lines_of(output.stdout).len() == 0 ==> diff_told(Ok(output), none) == seq![none],
        diff_told(Err(reason), none) == seq!["(diff unavailable)"@],
{
}

/// A diff of a file shows the lines that git wrote where it exited with success, what it wrote to
/// stderr where it did not, and a placeholder where there is nothing to show.
pub proof fn law_file_diff_shows_what_git_wrote(output: OutputView, reason: Seq<char>)
    ensures
        output.success && lines_of(output.stdout).len() > 0 ==> file_diff_told(Ok(output))
            == lines_of(output.stdout),
        output.success && lines_of(output.stdout).len() == 0 ==> file_diff_told(Ok(output)) == seq![
            "(no changes)"@,
        ],
        !output.success && !is_blank(output.stderr) ==> file_diff_told(Ok(output)) == seq![
            "(diff failed: "@ + trimmed(output.stderr) + ")"@,
        ],
        !output.success && is_blank(output.stderr) ==> file_diff_told(Ok(output)) == seq![
            "(diff unavailable)"@,
        ],
        file_diff_told(Err(reason)) == seq!["(diff unavailable)"@],
{
}

// ---------------------------------------------------------------------------
// The base branch

/// The search for the base branch asks for the remote's own first, and takes it if git names one;
/// otherwise it asks for the candidates in their order, and takes the first that exists.
pub proof fn law_base_search_takes_the_first(
    output: OutputView,
    reason: Seq<char>,
    place: int,
    found: Option<Seq<char>>,
)
    requires
        0 <= place < 6,
    ensures
        ({
            let named = output.success && !is_blank(output.stdout);
            let candidates = seq![
                "origin/main"@,
                "origin/master"@,
                "origin/dev"@,
                "main"@,
                "master"@,
                "dev"@,
            ];
            let next = if place == 5 {
                BaseView::Over(None)
            } else {
                BaseView::Candidate(place + 1)
            };
            &&& named ==> BaseView::RemoteHead.answered(Ok(output)) == BaseView::Over(
                Some(trimmed(output.stdout)),
            )
            &&& !named ==> BaseView::RemoteHead.answered(Ok(output)) == BaseView::Candidate(0)
            &&& BaseView::RemoteHead.answered(Err(reason)) == BaseView::Candidate(0)
            &&& output.success ==> BaseView::Candidate(place).answered(Ok(output))
                == BaseView::Over(Some(candidates[place]))
            &&& !output.success ==> BaseView::Candidate(place).answered(Ok(output)) == next
            &&& BaseView::Candidate(place).answered(Err(reason)) == next
            &&& BaseView::Over(found).answered(Ok(output)) == BaseView::Over(found)
            &&& BaseView::Over(found).answered(Err(reason)) == BaseView::Over(found)
        }),
{
    assert(BASE_CANDIDATES@.len() == 6);
    assert(BASE_CANDIDATES@[0]@ == "origin/main"@);
    assert(BASE_CANDIDATES@[1]@ == "origin/master"@);
    assert(BASE_CANDIDATES@[2]@ == "origin/dev"@);
    assert(BASE_CANDIDATES@[3]@ == "main"@);
    assert(BASE_CANDIDATES@[4]@ == "master"@);
    assert(BASE_CANDIDATES@[5]@ == "dev"@);
}

/// The point where a branch forked is what git wrote, without white space around it; the base
/// itself where git failed, and unknown where it could not be run.
pub proof fn law_fork_point_is_what_git_wrote(
    output: OutputView,
    base: Seq<char>,
    reason: Seq<char>,
)
    ensures
        output.success ==> merge_base_told(Ok(output), base) == Some(trimmed(output.stdout)),
        !output.success ==> merge_base_told(Ok(output), base) == Some(base),
        merge_base_told(Err(reason), base) is None,
{
}

} // verus!

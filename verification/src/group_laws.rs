//! Laws of groups: what a definition comes to, and what is listed of a command or a document.

use vstd::prelude::*;
use vstd::string::*;

use crate::groups::{
    command_listing, document_listing, entries_map, extracted, fetched_listing, first_line,
    is_fresh, named_sources, node_at, CacheView, ExtractKind, ExtractView, GroupDef, SourceView,
    DEFAULT_CACHE_TTL_MINUTES, DEFAULT_COLLAPSE_THRESHOLD, RESOLVE_TIMEOUT_SECS,
};
use crate::output::OutputView;
use crate::outside::{json_found, json_parsed, json_shape, JsonShape};
use crate::text::{
    is_blank, is_line, is_white, law_blank_lines_are_dropped, law_no_lines_in_nothing,
    law_trimming_keeps_tight_text, lines_of, terminated, trimmed,
};

verus! {

/// A definition is refused for its name first, then for naming no source, then for naming more
/// than one.
pub proof fn law_definition_is_refused_with_its_reason(def: GroupDef)
    ensures
        is_blank(def.name@) ==> def.source_of() == Err::<SourceView, Seq<char>>(
            "group with an empty name"@,
        ),
        !is_blank(def.name@) && named_sources(def) == 0 ==> def.source_of() == Err::<
            SourceView,
            Seq<char>,
        >("group '"@ + def.name@ + "': needs one of pattern/repos/command/url"@),
        !is_blank(def.name@) && named_sources(def) > 1 ==> def.source_of() == Err::<
            SourceView,
            Seq<char>,
        >("group '"@ + def.name@ + "': exactly one of pattern/repos/command/url"@),
        named_sources(def) == (if def.pattern is None { 0int } else { 1 }) + (if def.repos is None {
            0int
        } else {
            1
        }) + (if def.command is None { 0int } else { 1 }) + (if def.url is None {
            0int
        } else {
            1
        }),
{
    crate::groups::law_exactly_one_source(def);
}

/// What is taken out of a document where the definition says nothing of it: the keys of the whole
/// document.
pub proof fn law_keys_are_taken_by_default(def: GroupDef)
    ensures
        def.extract is None ==> def.extract_view().pointer.len() == 0 && def.extract_view().kind
            == ExtractKind::Keys,
        def.extract matches Some(extract) ==> def.extract_view() == extract.deep_view(),
{
}

/// The sources that are asked again and again are the commands and the addresses.
pub proof fn law_commands_and_addresses_are_dynamic(
    pattern: Seq<char>,
    repos: Seq<Seq<char>>,
    command: Seq<char>,
    url: Seq<char>,
    extract: ExtractView,
)
    ensures
        !SourceView::Pattern(pattern).is_dynamic(),
        !SourceView::Repos(repos).is_dynamic(),
        SourceView::Command(command).is_dynamic(),
        (SourceView::Url { url, extract }).is_dynamic(),
{
}

/// The fingerprint of a command is the command, and that of an address holds the address, the
/// pointer and the kind.
pub proof fn law_fingerprint_holds_the_source(
    command: Seq<char>,
    url: Seq<char>,
    pointer: Seq<char>,
)
    ensures
        SourceView::Command(command).fingerprint() == "command:"@ + command,
        (SourceView::Url {
            url,
            extract: ExtractView { pointer, kind: ExtractKind::Keys },
        }).fingerprint() == "url:"@ + url + ":"@ + pointer + ":Keys"@,
        (SourceView::Url {
            url,
            extract: ExtractView { pointer, kind: ExtractKind::Values },
        }).fingerprint() == "url:"@ + url + ":"@ + pointer + ":Values"@,
{
    reveal_strlit(":");
    reveal_strlit("Keys");
    reveal_strlit("Values");
    reveal_strlit(":Keys");
    reveal_strlit(":Values");
    let front = "url:"@ + url + ":"@ + pointer;
    assert(front + ":"@ + "Keys"@ =~= front + ":Keys"@);
    assert(front + ":"@ + "Values"@ =~= front + ":Values"@);
}

proof fn lemma_told_push(items: Seq<Option<Seq<char>>>, item: Option<Seq<char>>)
    ensures
        crate::groups::told_entries(items.push(item)) == (match item {
            Some(text) => crate::groups::told_entries(items).push(text),
            None => crate::groups::told_entries(items),
        }),
        crate::groups::told_entries(Seq::empty()) == Seq::<Seq<char>>::empty(),
{
    let make = |entry: Option<Seq<char>>| entry;
    let more = items.push(item);
    more.lemma_filter_map_take_succ(make, items.len() as int);
    assert(more.take(items.len() as int) =~= items);
    assert(more.take(items.len() + 1int) =~= more);
}

/// By its keys a document is listed only if it is an object: every key, in its order.
pub proof fn law_keys_of_an_object_are_listed(
    entries: Seq<(Seq<char>, Option<Seq<char>>)>,
    items: Seq<Option<Seq<char>>>,
    pointer: Seq<char>,
)
    ensures
        ({
            let extract = ExtractView { pointer, kind: ExtractKind::Keys };
            let refused = Err::<Seq<Seq<char>>, Seq<char>>(
                "node at '"@ + pointer + "' is not an object (kind=keys)"@,
            );
            &&& extracted(Some(JsonShape::Object(entries)), extract) matches Ok(names)
                && names.len() == entries.len() && forall|i: int|
                0 <= i < entries.len() ==> #[trigger] names[i] == entries[i].0
            &&& extracted(Some(JsonShape::Array(items)), extract) == refused
            &&& extracted(Some(JsonShape::Other), extract) == refused
        }),
{
}

/// By its values a document is listed if it is an array or an object: each value that is a text,
/// in its order; other values are passed over.
pub proof fn law_values_that_are_texts_are_listed(
    items: Seq<Option<Seq<char>>>,
    item: Option<Seq<char>>,
    entries: Seq<(Seq<char>, Option<Seq<char>>)>,
    key: Seq<char>,
    pointer: Seq<char>,
)
    ensures
        ({
            let extract = ExtractView { pointer, kind: ExtractKind::Values };
            let array = |items: Seq<Option<Seq<char>>>|
                extracted(Some(JsonShape::Array(items)), extract);
            let object = |entries: Seq<(Seq<char>, Option<Seq<char>>)>|
                extracted(Some(JsonShape::Object(entries)), extract);
            &&& array(items) is Ok && object(entries) is Ok
            &&& array(Seq::empty()) matches Ok(none) && none.len() == 0
            &&& object(Seq::empty()) matches Ok(none) && none.len() == 0
            &&& array(items.push(item)) matches Ok(names) && names == (match item {
                Some(text) => array(items)->Ok_0.push(text),
                None => array(items)->Ok_0,
            })
            &&& object(entries.push((key, item))) matches Ok(names) && names == (match item {
                Some(text) => object(entries)->Ok_0.push(text),
                None => object(entries)->Ok_0,
            })
            &&& extracted(Some(JsonShape::Other), extract) == Err::<Seq<Seq<char>>, Seq<char>>(
                "node at '"@ + pointer + "' is not an array or object (kind=values)"@,
            )
        }),
{
    lemma_told_push(items, item);
    let value = |entry: (Seq<char>, Option<Seq<char>>)| entry.1;
    assert(entries.push((key, item)).map_values(value) =~= entries.map_values(value).push(item));
    lemma_told_push(entries.map_values(value), item);
    assert(Seq::<(Seq<char>, Option<Seq<char>>)>::empty().map_values(value) =~= Seq::empty());
}

/// A pointer that leads nowhere is told, whatever is to be listed; one that leads somewhere leads
/// to what the document holds there.
pub proof fn law_pointer_leads_into_the_document(
    document: Seq<char>,
    pointer: Seq<char>,
    extract: ExtractView,
)
    ensures
        extracted(None, extract) == Err::<Seq<Seq<char>>, Seq<char>>(
            "JSON pointer '"@ + extract.pointer + "' not found"@,
        ),
        node_at(document, pointer) is None <==> json_found(document, pointer) is None,
        json_found(document, pointer) matches Some(node) ==> node_at(document, pointer) == Some(
            json_shape(node),
        ),
{
}

/// What a document lists is what is found at the pointer of the definition; a text that is no
/// document, and one that could not be fetched, are told with the reason.
pub proof fn law_fetched_document_is_listed(
    text: Seq<char>,
    document: Seq<char>,
    reason: Seq<char>,
    extract: ExtractView,
)
    ensures
        fetched_listing(Err(reason), extract) == Err::<Seq<Seq<char>>, Seq<char>>(
            "fetch failed: "@ + reason,
        ),
        fetched_listing(Ok(text), extract) == document_listing(json_parsed(text), extract),
        document_listing(Err(reason), extract) == Err::<Seq<Seq<char>>, Seq<char>>(
            "invalid JSON: "@ + reason,
        ),
        document_listing(Ok(document), extract) == extracted(
            node_at(document, extract.pointer),
            extract,
        ),
{
}

/// A command that exits with success lists a name for each line, in the order of the lines and
/// without the white space around it; a blank line names none. What it writes to stderr does not
/// count.
pub proof fn law_command_lists_a_name_for_each_line(
    less: OutputView,
    more: OutputView,
    line: Seq<char>,
)
    requires
        less.success,
        more.success,
        lines_of(more.stdout) == lines_of(less.stdout).push(line),
    ensures
        command_listing(Ok(less)) is Ok,
        command_listing(Ok(more)) matches Ok(names) && names == (if is_blank(line) {
            command_listing(Ok(less))->Ok_0
        } else {
            command_listing(Ok(less))->Ok_0.push(trimmed(line))
        }),
        lines_of(less.stdout).len() == 0 ==> command_listing(Ok(less))->Ok_0.len() == 0,
{
    law_blank_lines_are_dropped(less.stdout, more.stdout, line);
    law_no_lines_in_nothing(less.stdout);
}

/// Whatever a command that fails wrote to stdout, it is told by how it exited and by the first
/// line of what it wrote to stderr, without the white space around it.
pub proof fn law_failed_command_is_told_by_stderr(output: OutputView)
    requires
        !output.success,
    ensures
        command_listing(Ok(output)) == Err::<Seq<Seq<char>>, Seq<char>>(
            "command exited with "@ + output.status + ": "@ + first_line(trimmed(output.stderr)),
        ),
{
}

/// A command that fails is told by how it exited and by the first line that it wrote to stderr,
/// whether or not it wrote more; one that could not be started by the reason.
pub proof fn law_failed_command_is_told_by_its_first_line(
    output: OutputView,
    line: Seq<char>,
    more: Seq<char>,
    reason: Seq<char>,
)
    requires
        !output.success,
        is_line(line),
        line.len() > 0,
        !is_white(line[0]),
        !is_white(line.last()),
        output.stderr == line.push('\n') || output.stderr == line.push('\n') + more && more.len() > 0
            && !is_white(more.last()),
    ensures
        command_listing(Ok(output)) == Err::<Seq<Seq<char>>, Seq<char>>(
            "command exited with "@ + output.status + ": "@ + line,
        ),
        command_listing(Err(reason)) == Err::<Seq<Seq<char>>, Seq<char>>(
            "command failed to start: "@ + reason,
        ),
{
    let none = Seq::<char>::empty();
    if output.stderr == line.push('\n') {
        let feed = seq!['\n'];
        assert(none + line + feed =~= output.stderr);
        crate::text::law_white_space_around_makes_no_difference(none, line, feed);
        crate::text::law_line_ends(Seq::empty(), line);
        assert(terminated(Seq::<Seq<char>>::empty()) + line =~= line);
        assert(Seq::<Seq<char>>::empty().push(line)[0] == line);
    } else {
        let text = output.stderr;
        let set = crate::text::CharSet::Only('\n');
        assert(text[0] == line[0] && text.last() == more.last());
        law_trimming_keeps_tight_text(text);
        crate::text::law_pieces_of_two_sides(line, '\n', more, set);
        crate::text::law_pieces_of_plain_text(line, set);
        crate::text::lemma_pieces_len(more, set);
        let parts = crate::text::pieces(text, set);
        assert(parts[0] == line);
        assert(lines_of(text)[0] == line);
    }
}

/// The first line of a text is the first of its lines; a text without a line has an empty one.
pub proof fn law_first_line_comes_first(text: Seq<char>)
    ensures
        lines_of(text).len() > 0 ==> first_line(text) == lines_of(text)[0],
        lines_of(text).len() == 0 ==> first_line(text).len() == 0,
{
}

/// What holds where the configuration says nothing: the threshold is five, membership counts for a
/// day, and a resolution has ten seconds.
pub proof fn law_defaults_of_the_configuration()
    ensures
        DEFAULT_COLLAPSE_THRESHOLD == 5,
        DEFAULT_CACHE_TTL_MINUTES == 24 * 60,
        RESOLVE_TIMEOUT_SECS == 10,
{
}

/// Membership that counts for no time is never fresh, and any other is fresh exactly until its
/// minutes are over.
pub proof fn law_freshness_ends_with_the_minutes(resolved_at: u64, now: u64, ttl_minutes: u64)
    ensures
        !is_fresh(resolved_at, now, 0),
        ttl_minutes > 0 ==> (is_fresh(resolved_at, now, ttl_minutes) <==> now - resolved_at < 60
            * ttl_minutes),
{
}

/// Of two entries with one name the later counts; an entry with another name changes nothing.
pub proof fn law_later_entry_replaces(
    entries: Seq<(Seq<char>, CacheView)>,
    name: Seq<char>,
    value: CacheView,
    other: Seq<char>,
)
    ensures
        entries_map(Seq::empty()) == Map::<Seq<char>, CacheView>::empty(),
        entries_map(entries.push((name, value))).dom().contains(name),
        entries_map(entries.push((name, value)))[name] == value,
        other != name ==> (entries_map(entries.push((name, value))).dom().contains(other)
            <==> entries_map(entries).dom().contains(other)) && entries_map(
            entries.push((name, value)),
        )[other] == entries_map(entries)[other],
{
    assert(entries.push((name, value)).drop_last() =~= entries);
}

} // verus!

//! Repo grouping: the group definitions, the sources of their members, and the resolution of
//! members that come from commands and documents.

use vstd::prelude::*;
use vstd::string::*;

use crate::number::{decimal, decimal_text};
use crate::outside::{
    clock_seconds, json_found, json_node, json_parse, json_parsed, json_pointer, json_shape,
    json_text, JsonNode, JsonShape,
};
use crate::output::{told, CommandOutput, OutputView};
use crate::text::{
    blank, copy_text, copy_texts, is_blank, lines, lines_of, same, trim, trimmed, trimmed_lines,
    trimmed_lines_of,
};

pub use crate::wildcard::wildcard_match;

verus! {

/// Groups with more members than this get a collapsible (selectable) header by default.
pub const DEFAULT_COLLAPSE_THRESHOLD: usize = 5;

/// Default freshness window for dynamic (command/url) membership, in minutes.
pub const DEFAULT_CACHE_TTL_MINUTES: u64 = 1440;

/// User-edited group definitions. Without any, grouping is inert.
#[derive(Debug)]
pub struct GroupsConfig {
    /// Groups with more members than this get collapsible headers; 0 = use the default.
    pub collapse_threshold: usize,
    /// Dynamic-source cache freshness in minutes; 0 = use the default.
    pub cache_ttl_minutes: u64,
    pub groups: Vec<GroupDef>,
}

impl Default for GroupsConfig {
    fn default() -> (config: Self)
        ensures
            config.collapse_threshold == 0,
            config.cache_ttl_minutes == 0,
            config.groups@.len() == 0,
    {
        GroupsConfig { collapse_threshold: 0, cache_ttl_minutes: 0, groups: Vec::new() }
    }
}

impl GroupsConfig {
    /// The threshold in force: the configured one, or the default for zero.
    pub fn collapse_threshold(&self) -> (threshold: usize)
        ensures
            threshold == (if self.collapse_threshold == 0 {
                DEFAULT_COLLAPSE_THRESHOLD
            } else {
                self.collapse_threshold
            }),
    {
        if self.collapse_threshold == 0 {
            DEFAULT_COLLAPSE_THRESHOLD
        } else {
            self.collapse_threshold
        }
    }

    /// The freshness window in force: the configured one, or the default for zero.
    pub fn cache_ttl_minutes(&self) -> (minutes: u64)
        ensures
            minutes == (if self.cache_ttl_minutes == 0 {
                DEFAULT_CACHE_TTL_MINUTES
            } else {
                self.cache_ttl_minutes
            }),
    {
        if self.cache_ttl_minutes == 0 {
            DEFAULT_CACHE_TTL_MINUTES
        } else {
            self.cache_ttl_minutes
        }
    }
}

/// What to extract from the JSON document fetched from a `url` source.
#[derive(Debug, PartialEq, Eq)]
pub struct ExtractSpec {
    /// RFC 6901 JSON pointer to the node holding the names; `""` = document root.
    pub pointer: String,
    pub kind: ExtractKind,
}

/// Where in the node the names stand.
#[derive(Debug, Clone, Copy, PartialEq, Eq, Structural)]
pub enum ExtractKind {
    /// Member names = keys of the object at the pointer.
    Keys,
    /// Member names = string entries of the array (or string values of the object) at the pointer.
    Values,
}

/// What an `ExtractSpec` holds.
pub struct ExtractView {
    pub pointer: Seq<char>,
    pub kind: ExtractKind,
}

impl DeepView for ExtractSpec {
    type V = ExtractView;

    open spec fn deep_view(&self) -> ExtractView {
        ExtractView { pointer: self.pointer@, kind: self.kind }
    }
}

impl Default for ExtractKind {
    fn default() -> (kind: Self)
        ensures
            kind == ExtractKind::Keys,
    {
        ExtractKind::Keys
    }
}

impl Default for ExtractSpec {
    fn default() -> (spec_: Self)
        ensures
            spec_.pointer@.len() == 0,
            spec_.kind == ExtractKind::Keys,
    {
        ExtractSpec { pointer: String::new(), kind: ExtractKind::Keys }
    }
}

impl Clone for ExtractSpec {
    fn clone(&self) -> (copy: Self)
        ensures
            copy.deep_view() == self.deep_view(),
    {
        ExtractSpec { pointer: self.pointer.clone(), kind: self.kind }
    }
}

/// One group definition: a name plus exactly one membership source
/// (`pattern` / `repos` / `command` / `url`).
#[derive(Debug)]
pub struct GroupDef {
    pub name: String,
    /// `*`-wildcard match on repo names, e.g. `"mfe-*"`.
    pub pattern: Option<String>,
    /// Explicit repo-name list.
    pub repos: Option<Vec<String>>,
    /// Shell command whose stdout lines are repo names.
    pub command: Option<String>,
    /// URL of a JSON document; member names extracted per `extract`.
    pub url: Option<String>,
    /// How to pull names out of the JSON at `url` (default: keys of the document root).
    pub extract: Option<ExtractSpec>,
}

impl Default for GroupDef {
    fn default() -> (def: Self)
        ensures
            def.name@.len() == 0,
            def.pattern is None,
            def.repos is None,
            def.command is None,
            def.url is None,
            def.extract is None,
    {
        GroupDef {
            name: String::new(),
            pattern: None,
            repos: None,
            command: None,
            url: None,
            extract: None,
        }
    }
}

impl Clone for GroupDef {
    fn clone(&self) -> (copy: Self)
        ensures
            copy.name@ == self.name@,
            copy.pattern.deep_view() == self.pattern.deep_view(),
            copy.repos.deep_view() == self.repos.deep_view(),
            copy.command.deep_view() == self.command.deep_view(),
            copy.url.deep_view() == self.url.deep_view(),
            copy.extract.deep_view() == self.extract.deep_view(),
    {
        GroupDef {
            name: self.name.clone(),
            pattern: copy_text(&self.pattern),
            repos: match &self.repos {
                Some(repos) => Some(copy_texts(repos)),
                None => None,
            },
            command: copy_text(&self.command),
            url: copy_text(&self.url),
            extract: match &self.extract {
                Some(extract) => Some(extract.clone()),
                None => None,
            },
        }
    }
}

/// A validated membership source.
#[derive(Debug, PartialEq, Eq)]
pub enum GroupSource {
    Pattern(String),
    Repos(Vec<String>),
    Command(String),
    Url { url: String, extract: ExtractSpec },
}

/// What a `GroupSource` holds.
pub enum SourceView {
    Pattern(Seq<char>),
    Repos(Seq<Seq<char>>),
    Command(Seq<char>),
    Url { url: Seq<char>, extract: ExtractView },
}

impl DeepView for GroupSource {
    type V = SourceView;

    open spec fn deep_view(&self) -> SourceView {
        match self {
            GroupSource::Pattern(pattern) => SourceView::Pattern(pattern@),
            GroupSource::Repos(repos) => SourceView::Repos(repos.deep_view()),
            GroupSource::Command(command) => SourceView::Command(command@),
            GroupSource::Url { url, extract } => SourceView::Url {
                url: url@,
                extract: extract.deep_view(),
            },
        }
    }
}

impl Clone for GroupSource {
    fn clone(&self) -> (copy: Self)
        ensures
            copy.deep_view() == self.deep_view(),
    {
        match self {
            GroupSource::Pattern(pattern) => GroupSource::Pattern(pattern.clone()),
            GroupSource::Repos(repos) => GroupSource::Repos(copy_texts(repos)),
            GroupSource::Command(command) => GroupSource::Command(command.clone()),
            GroupSource::Url { url, extract } => GroupSource::Url {
                url: url.clone(),
                extract: extract.clone(),
            },
        }
    }
}

impl GroupDef {
    /// How an `extract` that is left out reads.
    pub open spec fn extract_view(self) -> ExtractView {
        match self.extract {
            Some(extract) => extract.deep_view(),
            None => ExtractView { pointer: Seq::empty(), kind: ExtractKind::Keys },
        }
    }

    /// The sources that the definition names, in the order pattern, repos, command, url.
    pub open spec fn sources(self) -> Seq<SourceView> {
        let pattern = match self.pattern {
            Some(pattern) => seq![SourceView::Pattern(pattern@)],
            None => Seq::empty(),
        };
        let repos = match self.repos {
            Some(repos) => seq![SourceView::Repos(repos.deep_view())],
            None => Seq::empty(),
        };
        let command = match self.command {
            Some(command) => seq![SourceView::Command(command@)],
            None => Seq::empty(),
        };
        let url = match self.url {
            Some(url) => seq![SourceView::Url { url: url@, extract: self.extract_view() }],
            None => Seq::empty(),
        };
        pattern + repos + command + url
    }

    /// What the definition comes to: its one source, or what is wrong with it.
    pub open spec fn source_of(self) -> Result<SourceView, Seq<char>> {
        if is_blank(self.name@) {
            Err("group with an empty name"@)
        } else if self.sources().len() == 0 {
            Err("group '"@ + self.name@ + "': needs one of pattern/repos/command/url"@)
        } else if self.sources().len() == 1 {
            Ok(self.sources()[0])
        } else {
            Err("group '"@ + self.name@ + "': exactly one of pattern/repos/command/url"@)
        }
    }

    /// The group's membership source, enforcing exactly-one-of pattern/repos/command/url.
    pub fn source(&self) -> (source: Result<GroupSource, String>)
        ensures
            match source {
                Ok(found) => self.source_of() == Ok::<_, Seq<char>>(found.deep_view()),
                Err(message) => self.source_of() == Err::<SourceView, _>(message@),
            },
    {
        if blank(self.name.as_str()) {
            return Err("group with an empty name".to_string());
        }
        let mut sources: Vec<GroupSource> = Vec::new();
        if let Some(pattern) = &self.pattern {
            sources.push(GroupSource::Pattern(pattern.clone()));
        }
        if let Some(repos) = &self.repos {
            sources.push(GroupSource::Repos(copy_texts(repos)));
        }
        if let Some(command) = &self.command {
            sources.push(GroupSource::Command(command.clone()));
        }
        if let Some(url) = &self.url {
            let extract = match &self.extract {
                Some(extract) => extract.clone(),
                None => ExtractSpec::default(),
            };
            assert(extract.deep_view().pointer =~= self.extract_view().pointer);
            sources.push(GroupSource::Url { url: url.clone(), extract });
        }
        assert(sources.deep_view() =~= self.sources());
        if sources.len() == 1 {
            assert(sources.deep_view()[0] == sources@[0].deep_view());
            Ok(sources.remove(0))
        } else if sources.len() == 0 {
            Err(
                "group '".to_string().concat(self.name.as_str()).concat(
                    "': needs one of pattern/repos/command/url",
                ),
            )
        } else {
            Err(
                "group '".to_string().concat(self.name.as_str()).concat(
                    "': exactly one of pattern/repos/command/url",
                ),
            )
        }
    }
}

impl SourceView {
    /// The members come from outside: a command or a document.
    pub open spec fn is_dynamic(self) -> bool {
        self is Command || self is Url
    }

    /// What a cached membership is kept under.
    pub open spec fn fingerprint(self) -> Seq<char> {
        match self {
            SourceView::Command(command) => "command:"@ + command,
            SourceView::Url { url, extract } => "url:"@ + url + ":"@ + extract.pointer + ":"@
                + kind_name(extract.kind),
            _ => Seq::empty(),
        }
    }
}

/// The name of an extraction kind.
pub open spec fn kind_name(kind: ExtractKind) -> Seq<char> {
    match kind {
        ExtractKind::Keys => "Keys"@,
        ExtractKind::Values => "Values"@,
    }
}

impl GroupSource {
    /// Whether membership comes from an external source resolved asynchronously.
    pub fn is_dynamic(&self) -> (dynamic: bool)
        ensures
            dynamic == self.deep_view().is_dynamic(),
    {
        matches!(self, GroupSource::Command(_) | GroupSource::Url { .. })
    }

    /// Cache-invalidation key: a cached entry whose fingerprint no longer matches the
    /// (possibly edited) config is ignored. Empty for static sources (never cached).
    pub fn fingerprint(&self) -> (key: String)
        ensures
            key@ == self.deep_view().fingerprint(),
    {
        match self {
            GroupSource::Command(command) => "command:".to_string().concat(command.as_str()),
            GroupSource::Url { url, extract } => {
                let kind = match extract.kind {
                    ExtractKind::Keys => "Keys",
                    ExtractKind::Values => "Values",
                };
                "url:".to_string().concat(url.as_str()).concat(":").concat(
                    extract.pointer.as_str(),
                ).concat(":").concat(kind)
            },
            _ => String::new(),
        }
    }

    /// Short source-kind label for the group preview.
    pub fn kind_label(&self) -> (label: &'static str)
        ensures
            label@ == (match self.deep_view() {
                SourceView::Pattern(_) => "pattern"@,
                SourceView::Repos(_) => "static list"@,
                SourceView::Command(_) => "command"@,
                SourceView::Url { .. } => "url"@,
            }),
    {
        match self {
            GroupSource::Pattern(_) => "pattern",
            GroupSource::Repos(_) => "static list",
            GroupSource::Command(_) => "command",
            GroupSource::Url { .. } => "url",
        }
    }

    /// The source's defining string for the group preview.
    pub fn detail(&self) -> (text: String)
        ensures
            text@ == (match self.deep_view() {
                SourceView::Pattern(pattern) => pattern,
                SourceView::Repos(repos) => decimal(repos.len()) + " repos"@,
                SourceView::Command(command) => command,
                SourceView::Url { url, .. } => url,
            }),
    {
        match self {
            GroupSource::Pattern(pattern) => pattern.clone(),
            GroupSource::Repos(repos) => decimal_text(repos.len() as u64).concat(" repos"),
            GroupSource::Command(command) => command.clone(),
            GroupSource::Url { url, .. } => url.clone(),
        }
    }
}

// ---------------------------------------------------------------------------
// Members out of a document

/// The entries that are told.
pub open spec fn told_entries(entries: Seq<Option<Seq<char>>>) -> Seq<Seq<char>> {
    entries.filter_map(|entry: Option<Seq<char>>| entry)
}

/// The member names in the node that a pointer finds, or what is wrong with it.
pub open spec fn extracted(found: Option<JsonShape>, extract: ExtractView) -> Result<
    Seq<Seq<char>>,
    Seq<char>,
> {
    match found {
        None => Err("JSON pointer '"@ + extract.pointer + "' not found"@),
        Some(node) => match extract.kind {
            ExtractKind::Keys => match node {
                JsonShape::Object(entries) => Ok(
                    entries.map_values(|entry: (Seq<char>, Option<Seq<char>>)| entry.0),
                ),
                _ => Err("node at '"@ + extract.pointer + "' is not an object (kind=keys)"@),
            },
            ExtractKind::Values => match node {
                JsonShape::Array(items) => Ok(told_entries(items)),
                JsonShape::Object(entries) => Ok(
                    told_entries(
                        entries.map_values(|entry: (Seq<char>, Option<Seq<char>>)| entry.1),
                    ),
                ),
                JsonShape::Other => Err(
                    "node at '"@ + extract.pointer
                        + "' is not an array or object (kind=values)"@,
                ),
            },
        },
    }
}

/// The node that `Value::pointer` finds in a document, as the logic reads it.
pub open spec fn node_at(document: Seq<char>, pointer: Seq<char>) -> Option<JsonShape> {
    match json_found(document, pointer) {
        Some(node) => Some(json_shape(node)),
        None => None,
    }
}

fn told_texts(entries: &Vec<Option<String>>) -> (found: Vec<String>)
    ensures
        found.deep_view() == told_entries(entries.deep_view()),
{
    let ghost all = entries.deep_view();
    let ghost keep = |entry: Option<Seq<char>>| entry;
    let mut found: Vec<String> = Vec::new();
    let mut i: usize = 0;
    while i < entries.len()
        invariant
            i <= entries@.len(),
            all == entries.deep_view(),
            keep == (|entry: Option<Seq<char>>| entry),
            found.deep_view() =~= all.take(i as int).filter_map(keep),
        decreases entries@.len() - i,
    {
        proof {
            assert(all[i as int] == entries@[i as int].deep_view());
            all.lemma_filter_map_take_succ(keep, i as int);
        }
        if let Some(entry) = &entries[i] {
            let ghost before = found.deep_view();
            let text = entry.clone();
            found.push(text);
            assert(found.deep_view() =~= before.push(text@));
        }
        i = i + 1;
    }
    assert(all.take(i as int) =~= all);
    found
}

/// The member names in the node that a pointer found.
pub fn members_of(node: &Option<JsonNode>, extract: &ExtractSpec) -> (members: Result<
    Vec<String>,
    String,
>)
    ensures
        told(members) == extracted(node.deep_view(), extract.deep_view()),
{
    let node = match node {
        Some(node) => node,
        None => {
            return Err(
                "JSON pointer '".to_string().concat(extract.pointer.as_str()).concat("' not found"),
            );
        },
    };
    match extract.kind {
        ExtractKind::Keys => match node {
            JsonNode::Object(entries) => {
                let mut keys: Vec<String> = Vec::new();
                let mut i: usize = 0;
                while i < entries.len()
                    invariant
                        i <= entries@.len(),
                        keys.deep_view() =~= entries.deep_view().take(i as int).map_values(
                            |entry: (Seq<char>, Option<Seq<char>>)| entry.0,
                        ),
                    decreases entries@.len() - i,
                {
                    assert(entries.deep_view()[i as int] == entries@[i as int].deep_view());
                    let ghost before = keys.deep_view();
                    let key = entries[i].0.clone();
                    keys.push(key);
                    assert(keys.deep_view() =~= before.push(key@));
                    i = i + 1;
                }
                assert(entries.deep_view().take(i as int) =~= entries.deep_view());
                Ok(keys)
            },
            _ => Err(
                "node at '".to_string().concat(extract.pointer.as_str()).concat(
                    "' is not an object (kind=keys)",
                ),
            ),
        },
        ExtractKind::Values => match node {
            JsonNode::Array(items) => Ok(told_texts(items)),
            JsonNode::Object(entries) => {
                let mut values: Vec<Option<String>> = Vec::new();
                let mut i: usize = 0;
                while i < entries.len()
                    invariant
                        i <= entries@.len(),
                        values.deep_view() =~= entries.deep_view().take(i as int).map_values(
                            |entry: (Seq<char>, Option<Seq<char>>)| entry.1,
                        ),
                    decreases entries@.len() - i,
                {
                    assert(entries.deep_view()[i as int] == entries@[i as int].deep_view());
                    let ghost before = values.deep_view();
                    let value = match &entries[i].1 {
                        Some(text) => Some(text.clone()),
                        None => None,
                    };
                    values.push(value);
                    assert(values.deep_view() =~= before.push(value.deep_view()));
                    i = i + 1;
                }
                assert(entries.deep_view().take(i as int) =~= entries.deep_view());
                Ok(told_texts(&values))
            },
            JsonNode::Other => Err(
                "node at '".to_string().concat(extract.pointer.as_str()).concat(
                    "' is not an array or object (kind=values)",
                ),
            ),
        },
    }
}

/// Pull member names out of a fetched JSON document per the extract spec.
pub fn extract_members(json: &serde_json::Value, spec_: &ExtractSpec) -> (members: Result<
    Vec<String>,
    String,
>)
    ensures
        told(members) == extracted(
            node_at(json_text(*json), spec_.pointer@),
            spec_.deep_view(),
        ),
        spec_.pointer@.len() == 0 ==> told(members) == extracted(
            Some(json_shape(json_text(*json))),
            spec_.deep_view(),
        ),
        spec_.pointer@.len() > 0 && spec_.pointer@[0] != '/' ==> told(members) == extracted(
            None,
            spec_.deep_view(),
        ),
{
    let node = match json_pointer(json, spec_.pointer.as_str()) {
        Some(found) => Some(json_node(found)),
        None => None,
    };
    members_of(&node, spec_)
}

// ---------------------------------------------------------------------------
// Resolving a source

/// What has to be done to learn the members of a source.
pub enum ResolveStep {
    /// Run `sh` with these arguments.
    Run(Vec<String>),
    /// Fetch the document at this address.
    Fetch(String),
    /// Nothing: the members stand in the definition.
    Nothing,
}

/// What a `ResolveStep` holds.
pub enum ResolveView {
    Run(Seq<Seq<char>>),
    Fetch(Seq<char>),
    Nothing,
}

impl DeepView for ResolveStep {
    type V = ResolveView;

    open spec fn deep_view(&self) -> ResolveView {
        match self {
            ResolveStep::Run(args) => ResolveView::Run(args.deep_view()),
            ResolveStep::Fetch(url) => ResolveView::Fetch(url@),
            ResolveStep::Nothing => ResolveView::Nothing,
        }
    }
}

impl GroupSource {
    /// What has to be done to learn the members.
    pub fn resolve_step(&self) -> (step: ResolveStep)
        ensures
            step.deep_view() == (match self.deep_view() {
                SourceView::Command(command) => ResolveView::Run(seq!["-c"@, command]),
                SourceView::Url { url, .. } => ResolveView::Fetch(url),
                _ => ResolveView::Nothing,
            }),
            step is Nothing <==> !self.deep_view().is_dynamic(),
    {
        match self {
            GroupSource::Command(command) => {
                let args = vec!["-c".to_string(), command.clone()];
                assert(args.deep_view() =~= seq!["-c"@, command@]);
                ResolveStep::Run(args)
            },
            GroupSource::Url { url, .. } => ResolveStep::Fetch(url.clone()),
            _ => ResolveStep::Nothing,
        }
    }
}

/// The first line of a text; empty where there is none.
pub open spec fn first_line(s: Seq<char>) -> Seq<char> {
    if lines_of(s).len() > 0 {
        lines_of(s)[0]
    } else {
        Seq::empty()
    }
}

/// The members that a command names, one per line, or why it named none.
pub open spec fn command_listing(run: Result<OutputView, Seq<char>>) -> Result<
    Seq<Seq<char>>,
    Seq<char>,
> {
    match run {
        Err(message) => Err("command failed to start: "@ + message),
        Ok(output) => if output.success {
            Ok(trimmed_lines_of(output.stdout))
        } else {
            Err(
                "command exited with "@ + output.status + ": "@ + first_line(
                    trimmed(output.stderr),
                ),
            )
        },
    }
}

/// The members that the command of a source names, one per line of its output.
pub fn command_members(run: &Result<CommandOutput, String>) -> (members: Result<
    Vec<String>,
    String,
>)
    ensures
        told(members) == command_listing(told(*run)),
{
    match run {
        Err(message) => Err("command failed to start: ".to_string().concat(message.as_str())),
        Ok(output) => {
            if output.success {
                Ok(trimmed_lines(output.stdout.as_str()))
            } else {
                let shown = lines(trim(output.stderr.as_str()).as_str());
                let first = if shown.len() > 0 {
                    assert(shown.deep_view()[0] == shown@[0]@);
                    shown[0].clone()
                } else {
                    String::new()
                };
                assert(first@ =~= first_line(trimmed(output.stderr@)));
                Err(
                    "command exited with ".to_string().concat(output.status.as_str()).concat(
                        ": ",
                    ).concat(first.as_str()),
                )
            }
        },
    }
}

/// The members in a document that was read or not.
pub open spec fn document_listing(
    parsed: Result<Seq<char>, Seq<char>>,
    extract: ExtractView,
) -> Result<Seq<Seq<char>>, Seq<char>> {
    match parsed {
        Err(message) => Err("invalid JSON: "@ + message),
        Ok(document) => extracted(node_at(document, extract.pointer), extract),
    }
}

/// The members in a document that was fetched or not.
pub open spec fn fetched_listing(
    fetched: Result<Seq<char>, Seq<char>>,
    extract: ExtractView,
) -> Result<Seq<Seq<char>>, Seq<char>> {
    match fetched {
        Err(message) => Err("fetch failed: "@ + message),
        Ok(text) => document_listing(json_parsed(text), extract),
    }
}

/// The members in the document that was read, or why there is none.
pub fn parsed_members(
    parsed: &Result<serde_json::Value, String>,
    extract: &ExtractSpec,
) -> (members: Result<Vec<String>, String>)
    ensures
        told(members) == document_listing(
            match *parsed {
                Ok(document) => Ok(json_text(document)),
                Err(message) => Err(message@),
            },
            extract.deep_view(),
        ),
{
    match parsed {
        Err(message) => Err("invalid JSON: ".to_string().concat(message.as_str())),
        Ok(document) => extract_members(document, extract),
    }
}

/// The members in the document of a source, as it was fetched.
pub fn document_members(fetched: &Result<String, String>, extract: &ExtractSpec) -> (members:
    Result<Vec<String>, String>)
    ensures
        told(members) == fetched_listing(told(*fetched), extract.deep_view()),
{
    match fetched {
        Err(message) => Err("fetch failed: ".to_string().concat(message.as_str())),
        Ok(text) => {
            let parsed = json_parse(text.as_str());
            parsed_members(&parsed, extract)
        },
    }
}

/// Per-source resolution timeout.
pub const RESOLVE_TIMEOUT_SECS: u64 = 10;

/// The error of a source that took longer than the timeout.
pub fn timeout_message() -> (message: String)
    ensures
        message@ == "timed out after "@ + decimal(RESOLVE_TIMEOUT_SECS as nat) + "s"@,
{
    "timed out after ".to_string().concat(decimal_text(RESOLVE_TIMEOUT_SECS).as_str()).concat("s")
}

// ---------------------------------------------------------------------------
// Freshness and the cache

/// Whether a membership resolved at `resolved_at` (unix seconds) is still within the TTL.
pub open spec fn is_fresh(resolved_at: u64, now: u64, ttl_minutes: u64) -> bool {
    now - resolved_at < ttl_minutes * 60 && ttl_minutes > 0
}

/// Whether a membership resolved at `resolved_at` (unix seconds) is still within the TTL.
pub fn resolved_fresh(resolved_at: u64, now: u64, ttl_minutes: u64) -> (fresh: bool)
    ensures
        fresh == is_fresh(resolved_at, now, ttl_minutes),
{
    (now.saturating_sub(resolved_at) as u128) < ttl_minutes as u128 * 60
}

/// The time as unix seconds, where a clock that stands before the epoch reads as zero.
pub fn seconds_or_zero(clock: Option<u64>) -> (now: u64)
    ensures
        now == (match clock {
            Some(secs) => secs,
            None => 0,
        }),
{
    match clock {
        Some(secs) => secs,
        None => 0,
    }
}

/// The time as unix seconds. What the machine's clock says is not known beforehand, so nothing
/// is stated of it; `seconds_or_zero` says what is made of it.
pub fn now_unix() -> (now: u64) {
    seconds_or_zero(clock_seconds())
}

/// The resolved membership of one dynamic group.
#[derive(Debug)]
pub struct CacheEntry {
    /// Unix seconds when the source was last resolved.
    pub resolved_at: u64,
    /// `GroupSource::fingerprint()` at resolve time — a mismatch means the config changed.
    pub fingerprint: String,
    pub members: Vec<String>,
}

/// What a `CacheEntry` holds.
#[verifier::ext_equal]
pub struct CacheView {
    pub resolved_at: u64,
    pub fingerprint: Seq<char>,
    pub members: Seq<Seq<char>>,
}

impl DeepView for CacheEntry {
    type V = CacheView;

    open spec fn deep_view(&self) -> CacheView {
        CacheView {
            resolved_at: self.resolved_at,
            fingerprint: self.fingerprint@,
            members: self.members.deep_view(),
        }
    }
}

impl Clone for CacheEntry {
    fn clone(&self) -> (copy: Self)
        ensures
            copy.deep_view() == self.deep_view(),
    {
        CacheEntry {
            resolved_at: self.resolved_at,
            fingerprint: self.fingerprint.clone(),
            members: copy_texts(&self.members),
        }
    }
}

/// Resolved dynamic-source membership, by group name, so grouped startups don't wait on
/// commands and fetches.
#[derive(Debug)]
pub struct GroupsCache {
    /// The entries; no name stands twice among them.
    pub entries: Vec<(String, CacheEntry)>,
}

/// The entries of a list by their names; a later entry replaces an earlier one.
pub open spec fn entries_map(entries: Seq<(Seq<char>, CacheView)>) -> Map<Seq<char>, CacheView>
    decreases entries.len(),
{
    if entries.len() == 0 {
        Map::empty()
    } else {
        entries_map(entries.drop_last()).insert(entries.last().0, entries.last().1)
    }
}

/// No name stands twice in a list of entries.
pub open spec fn distinct_names(entries: Seq<(Seq<char>, CacheView)>) -> bool {
    forall|i: int, j: int|
        0 <= i < j < entries.len() ==> (#[trigger] entries[i]).0 != (#[trigger] entries[j]).0
}

impl View for GroupsCache {
    type V = Map<Seq<char>, CacheView>;

    open spec fn view(&self) -> Map<Seq<char>, CacheView> {
        entries_map(self.entries.deep_view())
    }
}

/// The map of entries holds what stands in the list, where no name stands twice.
pub proof fn lemma_entries_map(entries: Seq<(Seq<char>, CacheView)>)
    requires
        distinct_names(entries),
    ensures
        forall|i: int|
            0 <= i < entries.len() ==> entries_map(entries).dom().contains(
                (#[trigger] entries[i]).0,
            ) && entries_map(entries)[entries[i].0] == entries[i].1,
        forall|name: Seq<char>| #[trigger]
            entries_map(entries).dom().contains(name) ==> exists|i: int|
                0 <= i < entries.len() && (#[trigger] entries[i]).0 == name,
    decreases entries.len(),
{
    if entries.len() > 0 {
        let rest = entries.drop_last();
        assert forall|i: int, j: int| 0 <= i < j < rest.len() implies (#[trigger] rest[i]).0 != (
        #[trigger] rest[j]).0 by {
            assert(rest[i] == entries[i] && rest[j] == entries[j]);
        }
        lemma_entries_map(rest);
        assert forall|i: int| 0 <= i < entries.len() implies entries_map(entries).dom().contains(
            (#[trigger] entries[i]).0,
        ) && entries_map(entries)[entries[i].0] == entries[i].1 by {
            if i < rest.len() {
                assert(rest[i] == entries[i]);
                assert(entries[i].0 != entries[entries.len() - 1].0);
            }
        }
        assert forall|name: Seq<char>| #[trigger]
            entries_map(entries).dom().contains(name) implies exists|i: int|
            0 <= i < entries.len() && (#[trigger] entries[i]).0 == name by {
            if name != entries.last().0 {
                assert(entries_map(rest).dom().contains(name));
                let i = choose|i: int| 0 <= i < rest.len() && (#[trigger] rest[i]).0 == name;
                assert(entries[i].0 == name);
            } else {
                assert(entries[entries.len() - 1].0 == name);
            }
        }
    }
}

proof fn lemma_entries_update(entries: Seq<(Seq<char>, CacheView)>, at: int, entry: CacheView)
    requires
        distinct_names(entries),
        0 <= at < entries.len(),
    ensures
        entries_map(entries.update(at, (entries[at].0, entry))) == entries_map(entries).insert(
            entries[at].0,
            entry,
        ),
    decreases entries.len(),
{
    let changed = entries.update(at, (entries[at].0, entry));
    let rest = entries.drop_last();
    if at == entries.len() - 1 {
        assert(changed.drop_last() =~= rest);
        assert(entries_map(changed) =~= entries_map(entries).insert(entries[at].0, entry));
    } else {
        assert(changed.drop_last() =~= rest.update(at, (rest[at].0, entry)));
        assert(distinct_names(rest)) by {
            assert forall|i: int, j: int| 0 <= i < j < rest.len() implies (#[trigger] rest[i]).0
                != (#[trigger] rest[j]).0 by {
                assert(rest[i] == entries[i] && rest[j] == entries[j]);
            }
        }
        lemma_entries_update(rest, at, entry);
        assert(entries[at].0 != entries[entries.len() - 1].0);
        assert(changed.last() == entries.last());
        assert(entries_map(changed) =~= entries_map(entries).insert(entries[at].0, entry));
    }
}

impl Default for GroupsCache {
    fn default() -> (cache: Self)
        ensures
            cache.wf(),
            cache@ == Map::<Seq<char>, CacheView>::empty(),
    {
        GroupsCache { entries: Vec::new() }
    }
}

impl GroupsCache {
    /// No name stands twice among the entries.
    pub open spec fn wf(&self) -> bool {
        distinct_names(self.entries.deep_view())
    }

    /// The entry of a group, where there is one.
    pub fn get(&self, name: &str) -> (entry: Option<&CacheEntry>)
        requires
            self.wf(),
        ensures
            match entry {
                Some(found) => self@.dom().contains(name@) && self@[name@] == found.deep_view(),
                None => !self@.dom().contains(name@),
            },
    {
        let ghost all = self.entries.deep_view();
        proof {
            lemma_entries_map(all);
        }
        let mut i: usize = 0;
        while i < self.entries.len()
            invariant
                i <= self.entries@.len(),
                all == self.entries.deep_view(),
                forall|j: int|
                    0 <= j < all.len() ==> entries_map(all).dom().contains((#[trigger] all[j]).0)
                        && entries_map(all)[all[j].0] == all[j].1,
                forall|j: int| 0 <= j < i ==> (#[trigger] all[j]).0 != name@,
            decreases self.entries@.len() - i,
        {
            assert(all[i as int] == self.entries@[i as int].deep_view());
            if same(self.entries[i].0.as_str(), name) {
                return Some(&self.entries[i].1);
            }
            i = i + 1;
        }
        None
    }

    /// Sets the entry of a group.
    pub fn insert(&mut self, name: String, entry: CacheEntry)
        requires
            old(self).wf(),
        ensures
            final(self).wf(),
            final(self)@ == old(self)@.insert(name@, entry.deep_view()),
    {
        let ghost all = self.entries.deep_view();
        let ghost value = entry.deep_view();
        let ghost key = name@;
        let mut i: usize = 0;
        while i < self.entries.len()
            invariant
                i <= self.entries@.len(),
                *self == *old(self),
                self.wf(),
                all == self.entries.deep_view(),
                value == entry.deep_view(),
                key == name@,
                forall|j: int| 0 <= j < i ==> (#[trigger] all[j]).0 != key,
            decreases self.entries@.len() - i,
        {
            assert(all[i as int] == self.entries@[i as int].deep_view());
            if same(self.entries[i].0.as_str(), name.as_str()) {
                proof {
                    lemma_entries_update(all, i as int, value);
                }
                self.entries.set(i, (name, entry));
                proof {
                    let after = self.entries.deep_view();
                    assert(after =~= all.update(i as int, (all[i as int].0, value)));
                    assert forall|a: int, b: int| 0 <= a < b < after.len() implies (
                    #[trigger] after[a]).0 != (#[trigger] after[b]).0 by {
                        assert(after[a].0 == all[a].0 && after[b].0 == all[b].0);
                        assert(all[a].0 != all[b].0);
                    }
                }
                return ;
            }
            i = i + 1;
        }
        self.entries.push((name, entry));
        proof {
            let after = self.entries.deep_view();
            assert(after =~= all.push((key, value)));
            assert(after.drop_last() =~= all);
            assert forall|a: int, b: int| 0 <= a < b < after.len() implies (#[trigger] after[a]).0
                != (#[trigger] after[b]).0 by {
                assert(after[a].0 == all[a].0);
                if b < all.len() {
                    assert(after[b].0 == all[b].0);
                }
            }
        }
    }
}

// ---------------------------------------------------------------------------
// Laws

/// How many of the four membership sources a definition names.
pub open spec fn named_sources(def: GroupDef) -> int {
    (if def.pattern is Some { 1int } else { 0 }) + (if def.repos is Some { 1int } else { 0 }) + (
    if def.command is Some { 1int } else { 0 }) + (if def.url is Some { 1int } else { 0 })
}

/// A definition is valid exactly if it has a name and exactly one membership source, and the
/// source it comes to is the one it names.
pub proof fn law_exactly_one_source(def: GroupDef)
    ensures
        def.source_of() is Ok <==> !is_blank(def.name@) && named_sources(def) == 1,
        def.source_of() matches Ok(source) ==> match source {
            SourceView::Pattern(pattern) => def.pattern.deep_view() == Some(pattern),
            SourceView::Repos(repos) => def.repos.deep_view() == Some(repos),
            SourceView::Command(command) => def.command.deep_view() == Some(command),
            SourceView::Url { url, extract } => def.url.deep_view() == Some(url) && extract
                == def.extract_view(),
        },
{
    assert(def.sources().len() == named_sources(def));
}

/// The fingerprint is empty exactly for static sources, which are never cached.
pub proof fn law_fingerprint_tells_dynamic(source: SourceView)
    ensures
        source.fingerprint().len() > 0 <==> source.is_dynamic(),
{
    reveal_strlit("command:");
    reveal_strlit("url:");
}

/// The addresses of two documents differ by the beginning of a pointer: what the second address
/// has behind the first, a colon before it, is what the first pointer has before the second.
pub open spec fn shifted(a: SourceView, b: SourceView, part: Seq<char>) -> bool {
    match (a, b) {
        (
            SourceView::Url { url: url_a, extract: extract_a },
            SourceView::Url { url: url_b, extract: extract_b },
        ) => extract_a.kind == extract_b.kind && url_b == url_a + ":"@ + part && extract_a.pointer
            == part + ":"@ + extract_b.pointer,
        _ => false,
    }
}

/// An edit of a dynamic source shows in its fingerprint: two sources share one exactly if they
/// are the same, or if they are documents whose addresses differ by the beginning of a pointer.
pub proof fn law_fingerprint_tells_edits(a: SourceView, b: SourceView)
    requires
        a.is_dynamic(),
        b.is_dynamic(),
    ensures
        a.fingerprint() == b.fingerprint() <==> a == b || (exists|part: Seq<char>| #[trigger]
            shifted(a, b, part)) || (exists|part: Seq<char>| #[trigger] shifted(b, a, part)),
{
    assert forall|part: Seq<char>| #[trigger] shifted(a, b, part) implies a.fingerprint()
        == b.fingerprint() by {
        lemma_shifted_fingerprints(a, b, part);
    }
    assert forall|part: Seq<char>| #[trigger] shifted(b, a, part) implies a.fingerprint()
        == b.fingerprint() by {
        lemma_shifted_fingerprints(b, a, part);
    }
    if a.fingerprint() == b.fingerprint() {
        lemma_same_fingerprint(a, b);
    }
}

proof fn lemma_shifted_fingerprints(a: SourceView, b: SourceView, part: Seq<char>)
    requires
        shifted(a, b, part),
    ensures
        a.fingerprint() == b.fingerprint(),
{
    assert(a.fingerprint() =~= b.fingerprint());
}

proof fn lemma_same_fingerprint(a: SourceView, b: SourceView)
    requires
        a.is_dynamic(),
        b.is_dynamic(),
        a.fingerprint() == b.fingerprint(),
    ensures
        a == b || (exists|part: Seq<char>| #[trigger] shifted(a, b, part)) || (exists|
            part: Seq<char>,
        | #[trigger] shifted(b, a, part)),
{
    reveal_strlit("command:");
    reveal_strlit("url:");
    reveal_strlit(":");
    reveal_strlit("Keys");
    reveal_strlit("Values");
    let fa = a.fingerprint();
    let fb = b.fingerprint();
    assert(fa[0] == (if a is Command { 'c' } else { 'u' }));
    assert(fb[0] == (if b is Command { 'c' } else { 'u' }));
    match (a, b) {
        (SourceView::Command(x), SourceView::Command(y)) => {
            assert(x =~= fa.skip(8));
            assert(y =~= fb.skip(8));
        },
        (
            SourceView::Url { url: url_a, extract: extract_a },
            SourceView::Url { url: url_b, extract: extract_b },
        ) => {
            let n = fa.len() as int;
            let ka = kind_name(extract_a.kind);
            let kb = kind_name(extract_b.kind);
            assert(fa[n - 2] == ka[ka.len() - 2]);
            assert(fb[n - 2] == kb[kb.len() - 2]);
            assert(extract_a.kind == extract_b.kind);
            let body = url_a + ":"@ + extract_a.pointer;
            assert(body =~= fa.subrange(4, n - ka.len() - 1));
            assert(url_b + ":"@ + extract_b.pointer =~= fb.subrange(4, n - ka.len() - 1));
            if url_a.len() <= url_b.len() {
                lemma_same_address(url_a, extract_a.pointer, url_b, extract_b.pointer);
                if url_a.len() < url_b.len() {
                    let part = url_b.skip(url_a.len() + 1int);
                    assert(shifted(a, b, part));
                }
            } else {
                lemma_same_address(url_b, extract_b.pointer, url_a, extract_a.pointer);
                let part = url_a.skip(url_b.len() + 1int);
                assert(shifted(b, a, part));
            }
        },
        _ => {},
    }
}

proof fn lemma_same_address(url: Seq<char>, pointer: Seq<char>, longer: Seq<char>, shorter: Seq<char>)
    requires
        url.len() <= longer.len(),
        url + ":"@ + pointer == longer + ":"@ + shorter,
    ensures
        url.len() == longer.len() ==> url == longer && pointer == shorter,
        url.len() < longer.len() ==> ({
            let part = longer.skip(url.len() + 1int);
            longer == url + ":"@ + part && pointer == part + ":"@ + shorter
        }),
{
    reveal_strlit(":");
    let body = url + ":"@ + pointer;
    let n = url.len() as int;
    let m = longer.len() as int;
    assert(body.len() == longer.len() + 1 + shorter.len());
    assert(url =~= body.take(n));
    assert(longer =~= body.take(m));
    assert(pointer =~= body.skip(n + 1));
    assert(shorter =~= body.skip(m + 1));
    if n < m {
        let part = longer.skip(n + 1);
        assert(body[n] == ':');
        assert(body[m] == ':');
        assert(longer =~= url + ":"@ + part);
        assert(pointer =~= part + ":"@ + shorter);
    }
}

/// A membership is fresh for the whole window and stale from its end on, for good; one that was
/// resolved in the future counts as fresh.
pub proof fn law_freshness_window(resolved_at: u64, now: u64, later: u64, ttl_minutes: u64)
    requires
        ttl_minutes > 0,
        now <= later,
    ensures
        is_fresh(resolved_at, now, ttl_minutes) <==> now < resolved_at + ttl_minutes * 60,
        !is_fresh(resolved_at, now, ttl_minutes) ==> !is_fresh(resolved_at, later, ttl_minutes),
        now <= resolved_at ==> is_fresh(resolved_at, now, ttl_minutes),
{
}

} // verus!

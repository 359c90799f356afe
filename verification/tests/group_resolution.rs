use pull_all_tui::app::AppState;
use pull_all_tui::groups::{
    command_members, document_members, members_of, now_unix, parsed_members, seconds_or_zero,
    timeout_message, CacheEntry, ExtractKind, ExtractSpec, GroupDef, GroupSource, GroupsCache,
    ResolveStep,
};
use pull_all_tui::output::CommandOutput;
use pull_all_tui::outside::JsonNode;
use pull_all_tui::resolution::{cache_groups, finish_resolution, start_resolution, GroupState};

fn ran(success: bool, stdout: &str, stderr: &str) -> Result<CommandOutput, String> {
    Ok(CommandOutput {
        success,
        status: "exit status: 3".to_string(),
        stdout: stdout.to_string(),
        stderr: stderr.to_string(),
    })
}

fn texts(list: &[&str]) -> Vec<String> {
    list.iter().map(|text| text.to_string()).collect()
}

fn url(address: &str, pointer: &str, kind: ExtractKind) -> GroupSource {
    GroupSource::Url {
        url: address.to_string(),
        extract: ExtractSpec { pointer: pointer.to_string(), kind },
    }
}

fn command(text: &str) -> GroupSource {
    GroupSource::Command(text.to_string())
}

fn group(name: &str, source: GroupSource) -> GroupState {
    GroupState {
        name: name.to_string(),
        source,
        members: None,
        resolved_at: None,
        resolving: false,
        error: None,
    }
}

#[test]
fn a_definition_tells_its_source() {
    let named = |def: GroupDef| GroupDef { name: "g".to_string(), ..def };
    let repos = named(GroupDef { repos: Some(texts(&["a"])), ..GroupDef::default() });
    assert_eq!(repos.source(), Ok(GroupSource::Repos(texts(&["a"]))));
    let run = named(GroupDef { command: Some("ls".to_string()), ..GroupDef::default() });
    assert_eq!(run.source(), Ok(command("ls")));
    let fetch = named(GroupDef { url: Some("u".to_string()), ..GroupDef::default() });
    assert_eq!(fetch.source(), Ok(url("u", "", ExtractKind::Keys)));
    let spec = ExtractSpec { pointer: "/p".to_string(), kind: ExtractKind::Values };
    let fetch = named(GroupDef {
        url: Some("u".to_string()),
        extract: Some(spec),
        ..GroupDef::default()
    });
    assert_eq!(fetch.source(), Ok(url("u", "/p", ExtractKind::Values)));
    let none = named(GroupDef::default());
    assert_eq!(
        none.source(),
        Err("group 'g': needs one of pattern/repos/command/url".to_string())
    );
    let two = named(GroupDef {
        repos: Some(vec![]),
        url: Some("u".to_string()),
        ..GroupDef::default()
    });
    assert_eq!(two.source(), Err("group 'g': exactly one of pattern/repos/command/url".to_string()));
    let blank = GroupDef { name: " \t".to_string(), ..GroupDef::default() };
    assert_eq!(blank.source(), Err("group with an empty name".to_string()));
}

#[test]
fn sources_are_labelled() {
    let pattern = GroupSource::Pattern("a*".to_string());
    let repos = GroupSource::Repos(texts(&["a", "b"]));
    assert_eq!((pattern.kind_label(), pattern.detail().as_str()), ("pattern", "a*"));
    assert_eq!((repos.kind_label(), repos.detail().as_str()), ("static list", "2 repos"));
    let run = command("ls");
    assert_eq!((run.kind_label(), run.detail().as_str()), ("command", "ls"));
    let fetch = url("u", "/p", ExtractKind::Keys);
    assert_eq!((fetch.kind_label(), fetch.detail().as_str()), ("url", "u"));
    assert!(!pattern.is_dynamic() && !repos.is_dynamic());
    assert!(run.is_dynamic() && fetch.is_dynamic());
    assert_eq!(fetch.clone(), fetch);
    assert_eq!(repos.clone(), repos);
}

#[test]
fn fingerprints_tell_edits() {
    assert_eq!(GroupSource::Pattern("a*".to_string()).fingerprint(), "");
    assert_eq!(GroupSource::Repos(vec![]).fingerprint(), "");
    assert_eq!(command("ls").fingerprint(), "command:ls");
    assert_eq!(url("u", "/p", ExtractKind::Keys).fingerprint(), "url:u:/p:Keys");
    assert_eq!(url("u", "", ExtractKind::Values).fingerprint(), "url:u::Values");
    assert_ne!(
        url("u", "/p", ExtractKind::Keys).fingerprint(),
        url("u", "/p", ExtractKind::Values).fingerprint()
    );
}

#[test]
fn a_source_says_how_to_resolve_it() {
    assert!(matches!(command("ls").resolve_step(), ResolveStep::Run(args) if args == ["-c", "ls"]));
    let fetch = url("u", "", ExtractKind::Keys);
    assert!(matches!(fetch.resolve_step(), ResolveStep::Fetch(address) if address == "u"));
    let pattern = GroupSource::Pattern("a*".to_string());
    assert!(matches!(pattern.resolve_step(), ResolveStep::Nothing));
}

#[test]
fn a_command_names_members_line_by_line() {
    assert_eq!(command_members(&ran(true, " a \n\n b\r\n", "")), Ok(texts(&["a", "b"])));
    assert_eq!(
        command_members(&ran(false, "a\n", "\n first \nsecond\n")),
        Err("command exited with exit status: 3: first ".to_string())
    );
    assert_eq!(
        command_members(&ran(false, "", "")),
        Err("command exited with exit status: 3: ".to_string())
    );
    assert_eq!(
        command_members(&Err("no sh".to_string())),
        Err("command failed to start: no sh".to_string())
    );
}

#[test]
fn a_document_names_members() {
    let spec = ExtractSpec { pointer: "/list".to_string(), kind: ExtractKind::Values };
    assert_eq!(
        document_members(&Ok(r#"{"list": ["a", 1, "b"]}"#.to_string()), &spec),
        Ok(texts(&["a", "b"]))
    );
    assert_eq!(
        document_members(&Err("offline".to_string()), &spec),
        Err("fetch failed: offline".to_string())
    );
    let broken = document_members(&Ok("{".to_string()), &spec).unwrap_err();
    assert!(broken.starts_with("invalid JSON: EOF while parsing"), "{broken}");
    assert_eq!(
        parsed_members(&Err("bad".to_string()), &spec),
        Err("invalid JSON: bad".to_string())
    );
    let document: serde_json::Value = serde_json::from_str(r#"{"list": ["x"]}"#).unwrap();
    assert_eq!(parsed_members(&Ok(document), &spec), Ok(texts(&["x"])));
}

#[test]
fn members_stand_in_a_node() {
    let spec = |kind| ExtractSpec { pointer: "/p".to_string(), kind };
    let object = Some(JsonNode::Object(vec![
        ("k1".to_string(), None),
        ("k2".to_string(), Some("v2".to_string())),
    ]));
    let array = Some(JsonNode::Array(vec![Some("a".to_string()), None]));
    let (keys, values) = (spec(ExtractKind::Keys), spec(ExtractKind::Values));
    assert_eq!(members_of(&object, &keys), Ok(texts(&["k1", "k2"])));
    assert_eq!(members_of(&object, &values), Ok(texts(&["v2"])));
    assert_eq!(members_of(&array, &values), Ok(texts(&["a"])));
    assert_eq!(
        members_of(&array, &keys),
        Err("node at '/p' is not an object (kind=keys)".to_string())
    );
    assert_eq!(
        members_of(&Some(JsonNode::Other), &values),
        Err("node at '/p' is not an array or object (kind=values)".to_string())
    );
    assert_eq!(members_of(&None, &keys), Err("JSON pointer '/p' not found".to_string()));
}

#[test]
fn a_pointer_begins_with_a_slash() {
    let document = Ok(r#"{"a": {"b": 1}}"#.to_string());
    let spec = |pointer: &str| ExtractSpec {
        pointer: pointer.to_string(),
        kind: ExtractKind::Keys,
    };
    assert_eq!(document_members(&document, &spec("/a")), Ok(texts(&["b"])));
    assert_eq!(
        document_members(&document, &spec("a")),
        Err("JSON pointer 'a' not found".to_string())
    );
}

#[test]
fn the_clock_reads_zero_before_the_epoch() {
    assert_eq!(seconds_or_zero(None), 0);
    assert_eq!(seconds_or_zero(Some(7)), 7);
    assert!(now_unix() > 1_600_000_000);
    assert_eq!(timeout_message(), "timed out after 10s");
}

#[test]
fn groups_that_are_due_are_started() {
    let mut groups = vec![
        group("static", GroupSource::Pattern("a*".to_string())),
        group("unresolved", command("ls")),
        group("fresh", command("ls")),
        group("stale", command("ls")),
        group("ageless", command("ls")),
    ];
    groups[0].resolving = true;
    for i in [2, 3, 4] {
        groups[i].members = Some(vec![]);
        groups[i].resolving = true;
    }
    groups[2].resolved_at = Some(950);
    groups[3].resolved_at = Some(940);
    let targets = start_resolution(&mut groups, 1_000, 1, false);
    let places: Vec<usize> = targets.iter().map(|target| target.0).collect();
    assert_eq!(places, vec![1, 3, 4]);
    let resolving: Vec<bool> = groups.iter().map(|group| group.resolving).collect();
    assert_eq!(resolving, vec![true, true, false, true, true]);
    let forced = start_resolution(&mut groups, 1_000, 1, true);
    assert_eq!(forced.len(), 4);
}

#[test]
fn a_failed_resolution_keeps_the_membership() {
    let mut groups = vec![group("a", command("x")), group("b", command("y")), group("c", command("z"))];
    groups[0].members = Some(texts(&["old"]));
    groups[0].resolved_at = Some(5);
    let targets = start_resolution(&mut groups, 1_000, 1, true);
    let results = vec![
        Err("boom".to_string()),
        Ok(texts(&["New", "ÄÖ"])),
        Err("late".to_string()),
    ];
    let failure = finish_resolution(&mut groups, &targets, results, 1_000);
    assert_eq!(failure.as_deref(), Some("group 'a': boom"));
    assert_eq!(groups[0].members, Some(texts(&["old"])));
    assert_eq!((groups[0].resolved_at, groups[0].error.as_deref()), (Some(5), Some("boom")));
    assert_eq!(groups[1].members, Some(texts(&["new", "äö"])));
    assert_eq!((groups[1].resolved_at, groups[1].error.as_deref()), (Some(1_000), None));
    assert_eq!((groups[2].members.clone(), groups[2].error.as_deref()), (None, Some("late")));
    assert!(groups.iter().all(|group| !group.resolving));
    // What was resolved is not due again within the window.
    let again = start_resolution(&mut groups, 1_059, 1, false);
    let places: Vec<usize> = again.iter().map(|target| target.0).collect();
    assert_eq!(places, vec![0, 2]);
}

#[test]
fn dynamic_groups_are_kept_for_the_next_start() {
    let mut groups = vec![
        group("static", GroupSource::Pattern("a*".to_string())),
        group("a", command("x")),
        group("unresolved", command("y")),
        group("a", command("z")),
    ];
    for i in [0, 1, 3] {
        groups[i].members = Some(vec![format!("m{i}")]);
        groups[i].resolved_at = Some(i as u64);
    }
    let cache = cache_groups(&groups);
    assert_eq!(cache.entries.len(), 1);
    let entry = cache.get("a").unwrap();
    assert_eq!((entry.resolved_at, entry.fingerprint.as_str()), (3, "command:z"));
    assert_eq!(entry.members, texts(&["m3"]));
    assert!(cache.get("static").is_none());
}

#[test]
fn a_cache_replaces_entries() {
    let mut cache = GroupsCache::default();
    let entry = |resolved_at| CacheEntry {
        resolved_at,
        fingerprint: "f".to_string(),
        members: texts(&["m"]),
    };
    cache.insert("a".to_string(), entry(1));
    cache.insert("b".to_string(), entry(2));
    cache.insert("a".to_string(), entry(3).clone());
    assert_eq!(cache.entries.len(), 2);
    assert_eq!(cache.get("a").unwrap().resolved_at, 3);
    assert_eq!(cache.get("b").unwrap().resolved_at, 2);
    assert!(cache.get("c").is_none());
}

#[test]
fn the_dashboard_takes_resolutions_in() {
    let mut app = AppState::new(vec![], 1);
    app.groups = vec![group("a", command("x")), group("b", command("y"))];
    app.toast = Some("before".to_string());
    let targets = app.start_group_resolution(50, false);
    assert_eq!(targets.len(), 2);
    let cache = app.finish_group_resolution(&targets, vec![Ok(texts(&["M"])), Ok(vec![])], 50);
    assert_eq!(app.toast.as_deref(), Some("before"));
    assert_eq!(cache.get("a").unwrap().members, texts(&["m"]));
    assert_eq!(app.start_group_resolution(60, false).len(), 0);
    let targets = app.start_group_resolution(60, true);
    app.finish_group_resolution(&targets, vec![Ok(vec![]), Err("no".to_string())], 60);
    assert_eq!(app.toast.as_deref(), Some("group 'b': no"));
}

#[test]
fn a_shifted_pointer_keeps_the_fingerprint() {
    let first = GroupSource::Url {
        url: "a".to_string(),
        extract: ExtractSpec { pointer: "b:c".to_string(), kind: ExtractKind::Keys },
    };
    let second = GroupSource::Url {
        url: "a:b".to_string(),
        extract: ExtractSpec { pointer: "c".to_string(), kind: ExtractKind::Keys },
    };
    assert_eq!(first.fingerprint(), "url:a:b:c:Keys");
    assert_eq!(first.fingerprint(), second.fingerprint());
    assert_ne!(first, second);
}

use ironclaw::json::Json;
use ironclaw::knowledge_wiki::paths::is_indexable_wiki_path;
use ironclaw::knowledge_wiki::types::WikiSearchHit;
use ironclaw::timestamp::Timestamp;
use ironclaw::wiki_tool::answers::{
    configure_answer, read_answer, read_path_in, root_from_setting, root_from_setting_in,
    root_source, root_source_in, search_answer, search_results, search_results_in, setting_write,
    status_answer, RootSource,
};
use ironclaw::wiki_tool::error::ToolError;
use ironclaw::wiki_tool::file_path::{
    has_markdown_extension, path_climbs, path_join, path_relative, path_under,
};
use ironclaw::wiki_tool::listing::{
    classify_entry, list_error, normalize_paths, sort_paths, EntryAction, EntryKind, ListFailure,
};
use ironclaw::wiki_tool::params::{
    approx_tokens, is_forced, parse_mode, require_str, resolve_namespace, root_setting_key,
    search_limits, Mode,
};
use ironclaw::wiki_tool::root::WikiRoot;
use ironclaw::wiki_tool::tool::{
    plan_call, plan_call_in, start_call, start_call_in, CallPlan, KnowledgeWikiTool, RateLimit,
};

const HOME: Option<&[u8]> = Some(b"/home/me");

fn json(s: &str) -> Json {
    Json::parse(s).unwrap()
}

fn bytes(s: &str) -> Vec<u8> {
    s.as_bytes().to_vec()
}

fn invalid(s: &str) -> ToolError {
    ToolError::InvalidParameters(s.to_string())
}

fn file(root: &str) -> WikiRoot {
    WikiRoot::File { root: bytes(root) }
}

fn workspace(root: &str) -> WikiRoot {
    WikiRoot::Workspace {
        root: root.to_string(),
    }
}

fn hit(path: &str) -> WikiSearchHit {
    WikiSearchHit {
        kind: "chunk".to_string(),
        path: path.to_string(),
        chunk_id: None,
        relation_id: None,
        subject: None,
        predicate: None,
        object: None,
        status: None,
        doc_type: None,
        priority: 0,
        max_inject_chars: None,
        preview: "x".to_string(),
        score_bits: 0,
        indexed_at: Timestamp { secs: 0, nanos: 0 },
    }
}

#[test]
fn modes_are_told_apart() {
    for (name, mode) in [
        ("sync", Mode::Sync),
        ("search", Mode::Search),
        ("read", Mode::Read),
        ("status", Mode::Status),
        ("configure", Mode::Configure),
    ] {
        assert_eq!(parse_mode(&json(&format!("{{\"mode\":\"{name}\"}}"))), Ok(mode));
    }
    assert_eq!(
        parse_mode(&json(r#"{"mode":"drop"}"#)),
        Err(invalid("unknown knowledge_wiki mode `drop`"))
    );
    assert_eq!(
        parse_mode(&json(r#"{"mode":1}"#)),
        Err(ToolError::MissingParameter("mode".to_string()))
    );
    assert_eq!(
        require_str(&json("[]"), "query"),
        Err(ToolError::MissingParameter("query".to_string()))
    );
}

#[test]
fn error_messages_name_their_kind() {
    assert_eq!(invalid("x").message(), "Invalid parameters: x");
    assert_eq!(
        ToolError::ExecutionFailed("y".to_string()).message(),
        "Execution failed: y"
    );
    assert_eq!(
        ToolError::MissingParameter("z".to_string()).message(),
        "Missing parameter: z"
    );
}

#[test]
fn namespaces_are_checked() {
    assert_eq!(resolve_namespace(&json("{}")), Ok("global".to_string()));
    assert_eq!(
        resolve_namespace(&json(r#"{"namespace":" team a "}"#)),
        Ok("team a".to_string())
    );
    assert_eq!(
        resolve_namespace(&json(r#"{"namespace":"  "}"#)),
        Err(invalid("knowledge_wiki namespace cannot be empty"))
    );
    for bad in ["a/b", "a\\\\b", "a..b"] {
        assert_eq!(
            resolve_namespace(&json(&format!("{{\"namespace\":\"{bad}\"}}"))),
            Err(invalid(
                "knowledge_wiki namespace must not contain path separators or `..`"
            ))
        );
    }
    assert_eq!(root_setting_key("team"), "knowledge_wiki.root.team");
}

#[test]
fn limits_are_kept() {
    assert_eq!(search_limits(&json("{}")), (10, 50));
    assert_eq!(search_limits(&json(r#"{"limit":3}"#)), (3, 15));
    assert_eq!(search_limits(&json(r#"{"limit":0}"#)), (0, 0));
    assert_eq!(search_limits(&json(r#"{"limit":30}"#)), (30, 100));
    assert_eq!(search_limits(&json(r#"{"limit":1000}"#)), (100, 100));
    assert_eq!(search_limits(&json(r#"{"limit":-1}"#)), (10, 50));
    assert_eq!(search_limits(&json(r#"{"limit":1.5}"#)), (10, 50));
    assert!(is_forced(&json(r#"{"force":true}"#)));
    assert!(!is_forced(&json(r#"{"force":"true"}"#)));
    assert!(!is_forced(&json("{}")));
}

#[test]
fn tokens_are_a_quarter_of_the_characters() {
    assert_eq!(approx_tokens(""), 0);
    assert_eq!(approx_tokens("a"), 1);
    assert_eq!(approx_tokens("abcd"), 1);
    assert_eq!(approx_tokens("äöüßé"), 2);
}

#[test]
fn paths_have_components() {
    assert!(path_under(&bytes("/a/b/c"), &bytes("/a/b")));
    assert!(path_under(&bytes("/a//b/./c"), &bytes("/a/b/")));
    assert!(path_under(&bytes("/a"), &bytes("/a")));
    assert!(!path_under(&bytes("/ab"), &bytes("/a")));
    assert!(!path_under(&bytes("a"), &bytes("/a")));
    assert!(path_climbs(&bytes("/a/../b")));
    assert!(path_climbs(&bytes("..")));
    assert!(!path_climbs(&bytes("/a/..b")));
    assert_eq!(path_join(&bytes("/a"), &bytes("b")), bytes("/a/b"));
    assert_eq!(path_join(&bytes("/a/"), &bytes("b")), bytes("/a/b"));
    assert_eq!(path_join(&bytes("/a"), &bytes("/b")), bytes("/b"));
    assert_eq!(path_join(&bytes(""), &bytes("b")), bytes("b"));
    assert_eq!(
        path_relative(&bytes("/a/b/c.md"), &bytes("/a")),
        Some(bytes("b/c.md").as_slice())
    );
    assert_eq!(path_relative(&bytes("/b"), &bytes("/a")), None);
    assert!(has_markdown_extension(&bytes("/a/b.md")));
    assert!(has_markdown_extension(&bytes("a.b.md")));
    assert!(!has_markdown_extension(&bytes("/a/.md")));
    assert!(!has_markdown_extension(&bytes("/a/b.MD")));
    assert!(!has_markdown_extension(&bytes("/a.md/..")));
}

#[test]
fn paths_agree_with_the_standard_library() {
    let samples = [
        "", "/", "//", "a", "/a", "a/", "./a", "a/./b", "a//b", "/a/b/", ".", "..", "a/..", "../a",
        "/..", "a.md", ".md", "x/.md", "x/y.md/", "x/y.md/.", "x/y.md/..", "a.md.", "a..md", "...",
    ];
    for a in samples {
        let pa = std::path::Path::new(a);
        assert_eq!(
            has_markdown_extension(&bytes(a)),
            pa.extension().and_then(|e| e.to_str()) == Some("md"),
            "{a}"
        );
        assert_eq!(
            path_climbs(&bytes(a)),
            pa.components()
                .any(|c| matches!(c, std::path::Component::ParentDir)),
            "{a}"
        );
        for b in samples {
            let pb = std::path::Path::new(b);
            assert_eq!(path_under(&bytes(a), &bytes(b)), pa.starts_with(pb), "{a} {b}");
            assert_eq!(
                path_join(&bytes(a), &bytes(b)),
                bytes(pa.join(pb).to_str().unwrap()),
                "{a} {b}"
            );
            let ours = path_relative(&bytes(a), &bytes(b)).map(|r| r.to_vec());
            let theirs = pa.strip_prefix(pb).ok().map(|p| bytes(p.to_str().unwrap()));
            assert_eq!(ours, theirs, "{a} {b}");
        }
    }
}

#[test]
fn configured_roots_are_told_apart() {
    let parse = |s: &str| WikiRoot::parse_configured_in(s, HOME);
    assert_eq!(parse("workspace:wiki"), Ok(workspace("wiki/")));
    assert_eq!(parse(" knowledge/wiki "), Ok(workspace("knowledge/wiki/")));
    assert_eq!(parse("file:/srv/wiki"), Ok(file("/srv/wiki")));
    assert_eq!(parse("/srv/wiki"), Ok(file("/srv/wiki")));
    assert_eq!(parse("~/wiki"), Ok(file("/home/me/wiki")));
    assert_eq!(parse("file:~"), Ok(file("/home/me")));
    assert_eq!(parse("file:rel"), Ok(file("rel")));
    assert_eq!(parse(""), Err(invalid("wiki_root cannot be empty")));
    assert_eq!(parse("file:"), Err(invalid("wiki_root cannot be empty")));
    assert_eq!(parse("workspace:"), Err(invalid("wiki_root cannot be empty")));
    assert_eq!(
        parse("/a/../b"),
        Err(invalid("file wiki_root must not contain `..`"))
    );
    assert_eq!(
        parse("a/../b"),
        Err(invalid(
            "wiki_root must be a relative workspace path without `..`"
        ))
    );
    assert_eq!(
        WikiRoot::parse_configured_in("~/wiki", None),
        Err(invalid("home directory not found"))
    );
}

#[test]
fn settings_bring_roots_back() {
    for raw in ["workspace:a/b", "/srv/wiki", "~/wiki"] {
        let root = WikiRoot::parse_configured_in(raw, HOME).unwrap();
        assert_eq!(
            WikiRoot::parse_configured_in(&root.setting_value(), None),
            Ok(root)
        );
    }
    for home in [&b"/home/\xff"[..], &b"/a\\b"[..]] {
        let root = WikiRoot::parse_configured_in("~/wiki", Some(home)).unwrap();
        let again = WikiRoot::parse_configured_in(&root.setting_value(), None).unwrap();
        assert_ne!(again, root);
        assert_eq!(again.kind(), root.kind());
        assert_eq!(again.display(), root.display());
        assert_eq!(again.setting_value(), root.setting_value());
    }
    assert_eq!(workspace("a/").setting_value(), "workspace:a/");
    assert_eq!(file("/a\\b").setting_value(), "file:/a/b");
    assert_eq!(file("/a").kind(), "file");
    assert_eq!(workspace("a/").kind(), "workspace");
    assert_eq!(workspace("a/").display(), "a/");
}

#[test]
fn the_home_directory_is_asked_for() {
    let home = WikiRoot::parse_configured("file:~");
    match home {
        Ok(WikiRoot::File { root }) => assert!(!root.is_empty() && root != b"~"),
        Err(e) => assert_eq!(e, invalid("home directory not found")),
        other => panic!("{other:?}"),
    }
    assert_eq!(WikiRoot::parse_configured("/srv/w"), Ok(file("/srv/w")));
    assert_eq!(WikiRoot::default_file_root(b"/base"), file("/base/wiki"));
}

#[test]
fn prefixes_stay_under_the_root() {
    let ws = workspace("wiki/");
    assert_eq!(ws.resolve_prefix_in(None, HOME), Ok("wiki/".to_string()));
    assert_eq!(
        ws.resolve_prefix_in(Some("wiki/notes"), HOME),
        Ok("wiki/notes".to_string())
    );
    assert_eq!(
        ws.resolve_prefix_in(Some("notes"), HOME),
        Err(invalid("path must be under workspace root wiki/"))
    );
    let f = file("/srv/wiki");
    assert_eq!(f.resolve_prefix_in(None, HOME), Ok("/srv/wiki".to_string()));
    assert_eq!(
        f.resolve_prefix_in(Some(" notes "), HOME),
        Ok("/srv/wiki/notes".to_string())
    );
    assert_eq!(
        f.resolve_prefix_in(Some("/etc"), HOME),
        Err(invalid("path must be under file root /srv/wiki"))
    );
    assert_eq!(
        f.resolve_prefix_in(Some("../x"), HOME),
        Err(invalid("file wiki_root must not contain `..`"))
    );
    assert_eq!(f.resolve_prefix(Some("x")), Ok("/srv/wiki/x".to_string()));
    assert_eq!(f.resolve_read_path("x.md"), Ok("/srv/wiki/x.md".to_string()));
}

#[test]
fn roots_know_their_documents() {
    let ws = workspace("wiki/");
    assert!(ws.contains_path("wiki"));
    assert!(ws.contains_path("/wiki/x"));
    assert!(!ws.contains_path("wikix"));
    assert!(ws.is_indexable_path("wiki/notes/a.md"));
    let f = file("/srv/wiki");
    assert!(f.contains_path("/srv/wiki/x"));
    assert!(!f.contains_path("/srv/wikix"));
    assert!(!f.contains_path("/srv/wiki/../x"));
    assert!(f.is_indexable_path("/srv/wiki/notes/a.md"));
    assert!(f.is_indexable_path("/srv/wiki/schema/entities/a.md"));
    assert!(!f.is_indexable_path("/srv/wiki/schema/a.md"));
    assert!(!f.is_indexable_path("/srv/wiki/a.md"));
    assert!(!f.is_indexable_path("/srv/wiki/notes/a..md"));
    assert!(!f.is_indexable_path("/srv/wiki/notes/a.txt"));
    assert!(!f.is_indexable_path("/srv/notes/a.md"));
}

#[test]
fn file_roots_have_relation_cards() {
    let card = "---\nsubject: a\npredicate: b\nobject: c\n---\n";
    let f = file("/srv/wiki");
    assert!(f
        .parse_relation_card("/srv/wiki/relations/x.md", card)
        .unwrap()
        .is_some());
    assert_eq!(f.parse_relation_card("/srv/wiki/notes/x.md", card), Ok(None));
    assert_eq!(
        f.parse_relation_card("/etc/x.md", card),
        Err("relation card path is outside /srv/wiki".to_string())
    );
    assert_eq!(
        f.parse_relation_card("/srv/../x.md", card),
        Err("Invalid parameters: file wiki_root must not contain `..`".to_string())
    );
}

#[test]
fn entries_are_sorted_and_chosen() {
    assert_eq!(
        classify_entry(EntryKind::Directory, b"/a.md"),
        EntryAction::Descend
    );
    assert_eq!(
        classify_entry(EntryKind::File, b"/a\\b.md"),
        EntryAction::Take("/a/b.md".to_string())
    );
    assert_eq!(classify_entry(EntryKind::File, b"/a.txt"), EntryAction::Pass);
    assert_eq!(classify_entry(EntryKind::Other, b"/a.md"), EntryAction::Pass);
    let mut names: Vec<String> = ["b", "a", "", "ab", "B", "é", "a", "\u{10000}", "\u{ffff}"]
        .iter()
        .map(|s| s.to_string())
        .collect();
    let sorted = sort_paths(names.clone());
    names.sort();
    assert_eq!(sorted, names);
    assert_eq!(
        normalize_paths(&vec![" /a\\b ".to_string()]),
        vec!["a/b".to_string()]
    );
}

#[test]
fn listing_failures_are_told_apart() {
    let e = |s: &str| ToolError::ExecutionFailed(s.to_string());
    let x = || "x".to_string();
    assert_eq!(
        list_error(&ListFailure::Workspace(x())),
        e("list wiki paths failed: x")
    );
    assert_eq!(
        list_error(&ListFailure::Interrupted(x())),
        e("list file wiki paths failed: x")
    );
    assert_eq!(
        list_error(&ListFailure::Directory {
            dir: "/d".to_string(),
            reason: x()
        }),
        e("read wiki directory /d failed: x")
    );
    assert_eq!(
        list_error(&ListFailure::Entry(x())),
        e("read wiki directory entry failed: x")
    );
    assert_eq!(
        list_error(&ListFailure::EntryKind(x())),
        e("read wiki file type failed: x")
    );
}

#[test]
fn roots_come_from_the_call_or_the_settings() {
    assert_eq!(
        root_source_in(&json(r#"{"wiki_root":"~/w"}"#), HOME),
        Ok(RootSource::Given(file("/home/me/w")))
    );
    assert_eq!(
        root_source(&json(r#"{"namespace":"n"}"#)),
        Ok(RootSource::Setting {
            owner: "global".to_string(),
            key: "knowledge_wiki.root.n".to_string()
        })
    );
    assert_eq!(
        root_source(&json(r#"{"namespace":"a/b"}"#)),
        Err(invalid(
            "knowledge_wiki namespace must not contain path separators or `..`"
        ))
    );
    assert_eq!(
        root_from_setting_in(Ok(Some(json("\"~/w\""))), b"/base", HOME),
        Ok(file("/home/me/w"))
    );
    assert_eq!(root_from_setting(Ok(None), b"/base"), Ok(file("/base/wiki")));
    assert_eq!(
        root_from_setting(Ok(Some(json("{\"a\":[1,null]}"))), b"/base"),
        Err(invalid(
            "knowledge_wiki.root must be a string, got {\"a\":[1,null]}"
        ))
    );
    assert_eq!(
        root_from_setting(Err("down".to_string()), b"/base"),
        Err(ToolError::ExecutionFailed(
            "load knowledge_wiki root setting failed: down".to_string()
        ))
    );
}

#[test]
fn searches_keep_to_the_root() {
    let f = file("/srv/wiki");
    let found = vec![hit("/srv/wiki/a"), hit("/etc/b"), hit("/srv/wiki/c"), hit("/srv/wiki/d")];
    let kept = search_results_in(&f, Ok(found), 2, HOME).unwrap();
    let paths: Vec<&str> = kept.iter().map(|h| h.path.as_str()).collect();
    assert_eq!(paths, vec!["/srv/wiki/a", "/srv/wiki/c"]);
    assert_eq!(
        search_results(&f, Err("down".to_string()), 2),
        Err(ToolError::ExecutionFailed(
            "knowledge_wiki search failed: down".to_string()
        ))
    );
    assert_eq!(
        search_answer("q", "n", &f, vec![Json::Null]).write(),
        r#"{"hits":[null],"namespace":"n","query":"q","wiki_root":"/srv/wiki","wiki_root_kind":"file"}"#
    );
}

#[test]
fn reads_are_checked_and_answered() {
    let f = file("/srv/wiki");
    assert_eq!(
        read_path_in(&f, "notes/a.md", HOME),
        Ok("/srv/wiki/notes/a.md".to_string())
    );
    assert_eq!(
        read_path_in(&f, "a.md", HOME),
        Err(invalid(
            "knowledge_wiki read only accepts indexable Markdown paths under /srv/wiki"
        ))
    );
    let answer = read_answer(&f, "n", "p", Ok("abc".to_string())).unwrap();
    assert_eq!(answer.str_at("content"), Some("abc"));
    assert_eq!(
        answer.str_at("content_sha256"),
        Some("ba7816bf8f01cfea414140de5dae2223b00361a396177a9cb410ff61f20015ad")
    );
    assert_eq!(
        read_answer(&f, "n", "p", Err("gone".to_string())),
        Err(ToolError::ExecutionFailed(
            "read wiki document failed: gone".to_string()
        ))
    );
}

#[test]
fn status_and_configuration_are_answered() {
    let ws = workspace("wiki/");
    assert_eq!(
        status_answer(Ok(json(r#"{"documents":1}"#)), "n", &ws)
            .unwrap()
            .write(),
        r#"{"documents":1,"namespace":"n","wiki_root":"wiki/","wiki_root_kind":"workspace"}"#
    );
    assert_eq!(status_answer(Ok(Json::Null), "n", &ws), Ok(Json::Null));
    assert_eq!(
        status_answer(Err("x".to_string()), "n", &ws),
        Err(ToolError::ExecutionFailed(
            "knowledge_wiki status failed: x".to_string()
        ))
    );
    let write = setting_write("n", &ws);
    assert_eq!(write.owner, "global");
    assert_eq!(write.key, "knowledge_wiki.root.n");
    assert_eq!(write.value, Json::Text("workspace:wiki/".to_string()));
    assert_eq!(
        configure_answer(Ok(()), "n", &ws).unwrap().write(),
        r#"{"namespace":"n","setting_key":"knowledge_wiki.root.n","wiki_root":"wiki/","wiki_root_kind":"workspace"}"#
    );
    assert_eq!(
        configure_answer(Err("x".to_string()), "n", &ws),
        Err(ToolError::ExecutionFailed(
            "persist knowledge_wiki root failed: x".to_string()
        ))
    );
}

#[test]
fn calls_start_with_what_they_need() {
    assert_eq!(
        start_call(&json(r#"{"mode":"search"}"#)),
        Err(ToolError::MissingParameter("query".to_string()))
    );
    assert_eq!(
        start_call(&json(r#"{"mode":"read"}"#)),
        Err(ToolError::MissingParameter("path".to_string()))
    );
    assert_eq!(
        start_call(&json(r#"{"mode":"configure"}"#)),
        Err(ToolError::MissingParameter("wiki_root".to_string()))
    );
    let start = start_call_in(&json(r#"{"mode":"configure","wiki_root":"~/w"}"#), HOME).unwrap();
    assert_eq!(start.mode, Mode::Configure);
    assert_eq!(start.source, RootSource::Given(file("/home/me/w")));
}

#[test]
fn calls_are_planned() {
    let root = || file("/srv/wiki");
    assert_eq!(
        plan_call(&json(r#"{"query":"q","limit":2}"#), Mode::Search, root()),
        Ok(CallPlan::Search {
            namespace: "global".to_string(),
            query: "q".to_string(),
            limit: 2,
            index_limit: 10
        })
    );
    assert_eq!(
        plan_call_in(&json(r#"{"path":"notes/a.md"}"#), Mode::Read, root(), HOME),
        Ok(CallPlan::Read {
            namespace: "global".to_string(),
            path: "/srv/wiki/notes/a.md".to_string()
        })
    );
    assert_eq!(
        plan_call(&json(r#"{"namespace":"n"}"#), Mode::Status, root()),
        Ok(CallPlan::Status {
            namespace: "n".to_string()
        })
    );
    assert!(matches!(
        plan_call(&json("{}"), Mode::Configure, root()),
        Ok(CallPlan::Configure { write, .. }) if write.value == Json::Text("file:/srv/wiki".to_string())
    ));
    assert!(matches!(
        plan_call(&json(r#"{"path":"notes","force":true}"#), Mode::Sync, root()),
        Ok(CallPlan::Sync(run)) if run.prefix == "/srv/wiki/notes" && run.force
    ));
    assert_eq!(
        plan_call(&json(r#"{"path":"/etc"}"#), Mode::Sync, root()),
        Err(invalid("path must be under file root /srv/wiki"))
    );
    assert_eq!(
        plan_call(&json(r#"{"namespace":""}"#), Mode::Status, root()),
        Err(invalid("knowledge_wiki namespace cannot be empty"))
    );
}

#[test]
fn the_tool_describes_itself() {
    let tool = KnowledgeWikiTool::new();
    assert_eq!(tool.name(), "knowledge_wiki");
    assert_eq!(KnowledgeWikiTool::new_with_name("kb").name(), "kb");
    assert!(tool.description().starts_with("Synchronize and query"));
    assert!(tool
        .description()
        .ends_with("Modes: sync, search, read, status, configure."));
    assert!(!tool.requires_sanitization());
    assert_eq!(
        tool.rate_limit_config(),
        Some(RateLimit {
            per_minute: 20,
            per_hour: 200
        })
    );
    let schema = tool.parameters_schema();
    assert_eq!(schema.str_at("type"), Some("object"));
    let properties = schema.get("properties").unwrap();
    assert_eq!(
        properties.get("mode").unwrap().get("enum").unwrap().write(),
        r#"["sync","search","read","status","configure"]"#
    );
    assert_eq!(
        properties.get("limit").unwrap().write(),
        r#"{"description":"Maximum search hits, default 10, max 100.","type":"integer"}"#
    );
    assert_eq!(schema.get("required").unwrap().write(), r#"["mode"]"#);
}

#[test]
fn home_directories_need_not_be_texts() {
    let home: Option<&[u8]> = Some(b"/home/\xff");
    let root = WikiRoot::parse_configured_in("~/wiki", home).unwrap();
    assert_eq!(
        root,
        WikiRoot::File {
            root: b"/home/\xff/wiki".to_vec()
        }
    );
    assert_eq!(root.display(), "/home/\u{fffd}/wiki");
    assert_eq!(root.setting_value(), "file:/home/\u{fffd}/wiki");
    assert!(root.is_indexable_path_in("~/wiki/notes/a.md", home));
    assert!(!root.is_indexable_path_in("/home/\u{fffd}/wiki/notes/a.md", home));
    assert!(root.contains_path_in("~/wiki", home));
    assert_eq!(
        root.resolve_prefix_in(None, home),
        Err(invalid("path must be under file root /home/\u{fffd}/wiki"))
    );
    assert_eq!(
        root.parse_relation_card_in("/etc/x.md", "", home),
        Err("relation card path is outside /home/\u{fffd}/wiki".to_string())
    );
    assert_eq!(
        classify_entry(EntryKind::File, b"/w/\xfe.md"),
        EntryAction::Take("/w/\u{fffd}.md".to_string())
    );
    assert_eq!(classify_entry(EntryKind::File, b"/w/a.\xfe"), EntryAction::Pass);
}

#[test]
fn file_and_workspace_roots_index_the_same_documents() {
    let samples = [
        "notes/a.md",
        "notes/b/c.md",
        "sources/a.md",
        "summaries/a.md",
        "entities/a.md",
        "relations/a.md",
        "relations.md",
        "notes",
        "schema/a.md",
        "schema/entities/a.md",
        "schema/relations/a.md",
        "schema/entities.md",
        "notes/a..md",
        "notes/a.txt",
        "other/notes/a.md",
        "notesx/a.md",
        "notes/é.md",
    ];
    for root in ["/srv/wiki", "/", "/a b/", "/é"] {
        for rel in samples {
            assert_eq!(
                file(root).is_indexable_path_in(&format!("{root}/{rel}"), HOME),
                is_indexable_wiki_path(&format!("wiki/{rel}")),
                "{root} {rel}"
            );
        }
    }
    assert!(!file("/srv/wiki").is_indexable_path_in("/srv/wikix/notes/a.md", HOME));
    assert!(!file("/srv/wiki").is_indexable_path_in("/srv", HOME));
}

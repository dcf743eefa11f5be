use ironclaw::digest::content_sha256;
use ironclaw::json::Json;
use ironclaw::knowledge_wiki::relations::RelationSource;
use ironclaw::knowledge_wiki::types::WikiSyncReport;
use ironclaw::timestamp::Timestamp;
use ironclaw::wiki_tool::answers::{sync_answer, RootSource};
use ironclaw::wiki_tool::error::ToolError;
use ironclaw::wiki_tool::listing::ListFailure;
use ironclaw::wiki_tool::params::Mode;
use ironclaw::wiki_tool::records::{sources_to_json, DocumentReading};
use ironclaw::wiki_tool::root::WikiRoot;
use ironclaw::wiki_tool::sync::{Stage, SyncAction, SyncEvent, SyncRun};
use ironclaw::wiki_tool::tool::{plan_call, start_call, CallPlan};

const NOW: Timestamp = Timestamp {
    secs: 1_700_000_000,
    nanos: 0,
};

fn file_root(root: &str) -> WikiRoot {
    WikiRoot::File {
        root: root.as_bytes().to_vec(),
    }
}

fn start(root: WikiRoot, force: bool) -> SyncRun {
    let prefix = root.resolve_prefix(None).unwrap();
    let (run, action) = SyncRun::start(root, "global", &prefix, force);
    assert_eq!(action, SyncAction::ListPaths);
    run
}

fn listed(paths: &[&str]) -> SyncEvent {
    SyncEvent::Listed(Ok(paths.iter().map(|p| p.to_string()).collect()))
}

/// Drives a run over documents that are all in memory, with a store that keeps
/// the digests of what it was given.
fn drive(
    run: &mut SyncRun,
    documents: &[(&str, &str)],
    digests: &mut Vec<(String, String)>,
) -> Result<WikiSyncReport, ToolError> {
    let names: Vec<&str> = documents.iter().map(|d| d.0).collect();
    let mut action = run.step(listed(&names));
    for _ in 0..1000 {
        let event = match action {
            SyncAction::ReadContent(path) => SyncEvent::ContentRead(
                documents
                    .iter()
                    .find(|d| d.0 == path)
                    .map(|d| d.1.to_string())
                    .ok_or("missing".to_string()),
            ),
            SyncAction::LookUpHash { path, .. } => SyncEvent::HashFound(Ok(digests
                .iter()
                .find(|d| d.0 == path)
                .map(|d| d.1.clone()))),
            SyncAction::ReadClock => SyncEvent::Clock(NOW),
            SyncAction::StoreDocument(record) => {
                digests.retain(|d| d.0 != record.path);
                digests.push((record.path, record.content_sha256));
                SyncEvent::Stored(Ok(()))
            }
            SyncAction::StoreChunks { .. }
            | SyncAction::StoreTriggers { .. }
            | SyncAction::StoreRelation(_) => SyncEvent::Stored(Ok(())),
            SyncAction::Finish(report) => return Ok(report),
            SyncAction::Fail(e) => return Err(e),
            other => panic!("{other:?}"),
        };
        action = run.step(event);
    }
    panic!("no end");
}

#[test]
fn file_root_must_point_at_wiki_parent_not_sources_dir() {
    let wiki_root = "/tmp/x/wiki";
    let sources_dir = "/tmp/x/wiki/sources";
    let documents = [(
        "/tmp/x/wiki/sources/report.md",
        "---\ntype: source\nkeywords: [report]\n---\n\n# Report\n\nBody.",
    )];
    let sync = |params: String| {
        let params = Json::parse(&params).unwrap();
        let call = start_call(&params).unwrap();
        assert_eq!(call.mode, Mode::Sync);
        let root = match call.source {
            RootSource::Given(root) => root,
            other => panic!("{other:?}"),
        };
        let mut run = match plan_call(&params, call.mode, root).unwrap() {
            CallPlan::Sync(run) => run,
            other => panic!("{other:?}"),
        };
        sync_answer(&drive(&mut run, &documents, &mut Vec::new()).unwrap())
    };

    let wrong_root_report = sync(format!(
        "{{\"mode\":\"sync\",\"namespace\":\"wrong-root\",\"wiki_root\":\"file:{sources_dir}\",\"force\":true}}"
    ));
    assert_eq!(wrong_root_report.get("scanned"), Some(&Json::from_u64(0)));
    assert_eq!(wrong_root_report.get("indexed"), Some(&Json::from_u64(0)));

    let parent_root_report = sync(format!(
        "{{\"mode\":\"sync\",\"namespace\":\"parent-root\",\"wiki_root\":\"file:{wiki_root}\",\"path\":\"sources\",\"force\":true}}"
    ));
    assert_eq!(parent_root_report.get("scanned"), Some(&Json::from_u64(1)));
    assert_eq!(parent_root_report.get("indexed"), Some(&Json::from_u64(1)));
}

#[test]
fn unchanged_documents_are_skipped() {
    let documents = [
        ("/w/notes/a.md", "alpha"),
        ("/w/relations/r.md", "---\nsubject: a\npredicate: b\nobject: c\n---\nx"),
        ("/w/other.md", "not indexed"),
    ];
    let mut digests = Vec::new();
    let first = drive(&mut start(file_root("/w"), false), &documents, &mut digests).unwrap();
    assert_eq!(
        (first.scanned, first.indexed, first.skipped, first.chunks, first.relations),
        (2, 2, 0, 2, 1)
    );
    let second = drive(&mut start(file_root("/w"), false), &documents, &mut digests).unwrap();
    assert_eq!((second.scanned, second.indexed, second.skipped), (2, 0, 2));
    assert_eq!((second.chunks, second.relations), (0, 0));
    assert!(second.errors.is_empty());
    let forced = drive(&mut start(file_root("/w"), true), &documents, &mut digests).unwrap();
    assert_eq!((forced.scanned, forced.indexed, forced.skipped), (2, 2, 0));
}

#[test]
fn second_runs_store_nothing() {
    let mut digests = vec![("/w/notes/b.md".to_string(), content_sha256("beta"))];
    let documents = [
        ("/w/notes/b.md", "beta"),
        ("/w/notes/a.md", "alpha"),
        ("/w/notes/a.md", "alpha"),
    ];
    let first = drive(&mut start(file_root("/w"), false), &documents, &mut digests).unwrap();
    assert_eq!((first.scanned, first.indexed, first.skipped), (3, 1, 2));
    let mut run = start(file_root("/w"), false);
    let mut action = run.step(listed(&["/w/notes/b.md", "/w/notes/a.md", "/w/notes/a.md"]));
    let mut asked = Vec::new();
    for _ in 0..6 {
        let event = match &action {
            SyncAction::ReadContent(path) => {
                asked.push(path.clone());
                SyncEvent::ContentRead(Ok(
                    documents.iter().find(|d| d.0 == path).unwrap().1.to_string()
                ))
            }
            SyncAction::LookUpHash { path, .. } => SyncEvent::HashFound(Ok(digests
                .iter()
                .find(|d| d.0 == *path)
                .map(|d| d.1.clone()))),
            other => panic!("{other:?}"),
        };
        action = run.step(event);
    }
    assert_eq!(asked, vec!["/w/notes/a.md", "/w/notes/a.md", "/w/notes/b.md"]);
    match action {
        SyncAction::Finish(r) => {
            assert_eq!((r.scanned, r.indexed, r.skipped), (3, 0, 3));
        }
        other => panic!("{other:?}"),
    }
}

#[test]
fn counts_add_up() {
    let mut run = start(file_root("/w"), false);
    run.step(listed(&["/w/notes/a.md", "/w/x.md", "/w/notes/b.md", "/w/notes/c.md"]));
    run.step(SyncEvent::ContentRead(Err("denied".to_string())));
    run.step(SyncEvent::ContentRead(Ok("b".to_string())));
    run.step(SyncEvent::HashFound(Ok(Some(content_sha256("b")))));
    run.step(SyncEvent::ContentRead(Ok("c".to_string())));
    run.step(SyncEvent::HashFound(Ok(None)));
    run.step(SyncEvent::Clock(NOW));
    run.step(SyncEvent::Stored(Ok(())));
    run.step(SyncEvent::Stored(Ok(())));
    match run.step(SyncEvent::Stored(Ok(()))) {
        SyncAction::Finish(r) => {
            assert_eq!((r.scanned, r.indexed, r.skipped), (3, 1, 1));
            assert_eq!(r.errors.len(), 1);
        }
        other => panic!("{other:?}"),
    }
}

#[test]
fn documents_are_gone_through_in_order() {
    let mut run = start(file_root("/w"), true);
    assert_eq!(
        run.step(listed(&["/w/notes/b.md", "/w/notes/a.md"])),
        SyncAction::ReadContent("/w/notes/a.md".to_string())
    );
}

#[test]
fn errors_are_reported_and_the_run_goes_on() {
    let mut run = start(file_root("/w"), false);
    run.step(listed(&["/w/notes/a.md", "/w/relations/b.md"]));
    assert_eq!(
        run.step(SyncEvent::ContentRead(Err("denied".to_string()))),
        SyncAction::ReadContent("/w/relations/b.md".to_string())
    );
    let blank = "---\nsubject: ''\npredicate: b\nobject: c\n---\n";
    assert!(matches!(
        run.step(SyncEvent::ContentRead(Ok(blank.to_string()))),
        SyncAction::LookUpHash { .. }
    ));
    assert_eq!(
        run.step(SyncEvent::HashFound(Err("locked".to_string()))),
        SyncAction::ReadClock
    );
    run.step(SyncEvent::Clock(NOW));
    run.step(SyncEvent::Stored(Ok(())));
    run.step(SyncEvent::Stored(Ok(())));
    match run.step(SyncEvent::Stored(Ok(()))) {
        SyncAction::Finish(report) => {
            assert_eq!(report.scanned, 2);
            assert_eq!(report.indexed, 1);
            assert_eq!(
                report.errors,
                vec![
                    "/w/notes/a.md: read failed: denied".to_string(),
                    "/w/relations/b.md: hash lookup failed: locked".to_string(),
                    "relation card wiki/relations/b.md has an empty subject/predicate/object"
                        .to_string(),
                ]
            );
        }
        other => panic!("{other:?}"),
    }
    assert_eq!(run.stage, Stage::Finished);
}

#[test]
fn failures_to_store_end_the_run() {
    let texts = [
        "index document failed: x",
        "index chunks failed: x",
        "index triggers failed: x",
        "index relation failed: x",
    ];
    for (k, text) in texts.iter().enumerate() {
        let mut run = start(file_root("/w"), true);
        run.step(listed(&["/w/relations/a.md"]));
        run.step(SyncEvent::ContentRead(Ok(
            "---\nsubject: a\npredicate: b\nobject: c\n---\n".to_string(),
        )));
        run.step(SyncEvent::Clock(NOW));
        for _ in 0..k {
            run.step(SyncEvent::Stored(Ok(())));
        }
        assert_eq!(
            run.step(SyncEvent::Stored(Err("x".to_string()))),
            SyncAction::Fail(ToolError::ExecutionFailed(text.to_string()))
        );
        assert_eq!(run.stage, Stage::Failed);
    }
    let mut run = start(file_root("/w"), true);
    assert_eq!(
        run.step(SyncEvent::Listed(Err(ListFailure::Workspace("x".to_string())))),
        SyncAction::Fail(ToolError::ExecutionFailed(
            "list wiki paths failed: x".to_string()
        ))
    );
}

#[test]
fn misplaced_events_change_nothing() {
    let mut run = start(file_root("/w"), true);
    assert_eq!(run.step(SyncEvent::Clock(NOW)), SyncAction::Misplaced);
    assert_eq!(run.stage, Stage::Listing);
    assert!(matches!(run.step(listed(&[])), SyncAction::Finish(_)));
    assert_eq!(run.step(listed(&[])), SyncAction::Misplaced);
}

#[test]
fn workspace_paths_are_brought_into_normal_form() {
    let root = WikiRoot::Workspace {
        root: "wiki/".to_string(),
    };
    let mut run = start(root, true);
    assert_eq!(
        run.step(listed(&["MEMORY.md", "/wiki\\notes/a.md"])),
        SyncAction::ReadContent("wiki/notes/a.md".to_string())
    );
}

#[test]
fn records_are_made_of_a_document() {
    let content = "---\ntype: guide\nstatus: draft\npriority: 7\nmax_inject_chars: 300\nkeywords: a, b\n---\nhello world";
    let reading = DocumentReading {
        namespace: "n".to_string(),
        path: "p.md".to_string(),
        content: content.to_string(),
        at: NOW,
    };
    let document = reading.document_record();
    assert_eq!(document.content_sha256, content_sha256(content));
    assert_eq!(document.doc_type, Some("guide".to_string()));
    assert_eq!(document.status, "draft");
    assert_eq!(document.priority, 7);
    assert_eq!(document.max_inject_chars, Some(300));
    assert_eq!(
        document.frontmatter_json.write(),
        r#"{"keywords":"a, b","max_inject_chars":300,"priority":7,"status":"draft","type":"guide"}"#
    );
    let chunks = reading.chunk_records();
    assert_eq!(chunks.len(), 1);
    assert_eq!(chunks[0].preview, "hello world");
    assert_eq!(chunks[0].token_count, 3);
    assert_eq!(chunks[0].chunk_sha256, content_sha256("hello world"));
    assert_eq!(chunks[0].indexed_at, NOW);
    let triggers = reading.trigger_records();
    let words: Vec<&str> = triggers.iter().map(|t| t.keyword.as_str()).collect();
    assert_eq!(words, vec!["a", "b"]);
    assert_eq!(triggers[0].priority, 7);
    assert_eq!(triggers[0].status, "draft");
    let plain = DocumentReading {
        namespace: "n".to_string(),
        path: "p.md".to_string(),
        content: "x".repeat(700),
        at: NOW,
    };
    assert_eq!(plain.status(), "approved");
    assert_eq!(plain.priority(), 0);
    assert_eq!(plain.chunk_records()[0].preview.len(), 500);
    assert_eq!(plain.chunk_records()[0].token_count, 175);
}

#[test]
fn sources_are_written_without_empty_fields() {
    let sources = vec![
        RelationSource {
            path: "a".to_string(),
            chunk_id: None,
            quote: Some("q".to_string()),
        },
        RelationSource {
            path: "b".to_string(),
            chunk_id: Some("c".to_string()),
            quote: None,
        },
    ];
    assert_eq!(
        sources_to_json(&sources).write(),
        r#"[{"path":"a","quote":"q"},{"chunk_id":"c","path":"b"}]"#
    );
}

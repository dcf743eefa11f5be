//! A synchronization, step by step.
//!
//! A run decides what happens next; whoever drives it performs each action and
//! hands back what came of it.

use vstd::prelude::*;
use vstd::slice::slice_to_vec;

use crate::bytes::{as_slice_opt, opt_bytes, opt_slice};
use crate::digest::{content_sha256, text_digest};
use crate::knowledge_wiki::relations::CardView;
use crate::knowledge_wiki::types::{chunk_record_views, trigger_views, ChunkView, DocumentView};
use crate::knowledge_wiki::types::{RelationView, ReportView, TriggerView, WikiChunkRecord};
use crate::knowledge_wiki::types::{WikiDocumentRecord, WikiRelationRecord, WikiSyncReport};
use crate::knowledge_wiki::types::WikiTriggerRecord;
use crate::text::{chars_of, concat2, concat3, copy_texts, opt_text, same_text};
use crate::text::{starts_with, strip_trailing, text_at, texts, without_trailing};
use crate::timestamp::Timestamp;
use crate::wiki_tool::error::{ErrorView, ToolError};
use crate::wiki_tool::listing::{in_order, list_error, list_error_of, normal_paths};
use crate::wiki_tool::listing::{normalize_paths, sort_paths, ListFailure};
use crate::wiki_tool::records::{chunk_records_of, document_of, relation_record_of};
use crate::wiki_tool::records::{trigger_records_of, DocumentReading, Reading};
use crate::wiki_tool::root::{home_dir, root_card, root_indexes, root_kind, root_shown};
use crate::wiki_tool::root::{RootView, WikiRoot};

verus! {

/// What a run waits for.
#[derive(Clone, Copy, Debug, PartialEq, Eq, Structural)]
pub enum Stage {
    /// The paths of the wiki.
    Listing,
    /// The content of a document.
    Reading,
    /// The digest that the index has of it.
    LookingUp,
    /// The time.
    Timing,
    /// That its record has been stored.
    Document,
    /// That its chunks have been stored.
    Chunks,
    /// That its keywords have been stored.
    Triggers,
    /// That its fact has been stored.
    Relation,
    /// Nothing: all documents have been gone through.
    Finished,
    /// Nothing: something failed.
    Failed,
}

/// What came of an action.
#[derive(Debug, PartialEq)]
pub enum SyncEvent {
    Listed(Result<Vec<String>, ListFailure>),
    ContentRead(Result<String, String>),
    HashFound(Result<Option<String>, String>),
    Clock(Timestamp),
    Stored(Result<(), String>),
}

/// What is to be done.
#[derive(Debug, PartialEq)]
pub enum SyncAction {
    ListPaths,
    ReadContent(String),
    LookUpHash { namespace: String, path: String },
    ReadClock,
    StoreDocument(WikiDocumentRecord),
    StoreChunks { namespace: String, path: String, chunks: Vec<WikiChunkRecord> },
    StoreTriggers { namespace: String, path: String, triggers: Vec<WikiTriggerRecord> },
    StoreRelation(WikiRelationRecord),
    /// The run is over.
    Finish(WikiSyncReport),
    /// The run is over, without a report.
    Fail(ToolError),
    /// What was handed back is not what the run waits for.
    Misplaced,
}

/// What an event is.
pub enum EventView {
    Listed(Result<Seq<Seq<char>>, ListFailure>),
    ContentRead(Result<Seq<char>, Seq<char>>),
    HashFound(Result<Option<Seq<char>>, Seq<char>>),
    Clock(Timestamp),
    Stored(Result<(), Seq<char>>),
}

/// What an action is.
pub enum ActionView {
    ListPaths,
    ReadContent(Seq<char>),
    LookUpHash(Seq<char>, Seq<char>),
    ReadClock,
    StoreDocument(DocumentView),
    StoreChunks(Seq<char>, Seq<char>, Seq<ChunkView>),
    StoreTriggers(Seq<char>, Seq<char>, Seq<TriggerView>),
    StoreRelation(RelationView),
    Finish(ReportView),
    Fail(ErrorView),
    Misplaced,
}

impl View for SyncEvent {
    type V = EventView;

    open spec fn view(&self) -> EventView {
        match self {
            SyncEvent::Listed(Ok(p)) => EventView::Listed(Ok(texts(p@))),
            SyncEvent::Listed(Err(e)) => EventView::Listed(Err(*e)),
            SyncEvent::ContentRead(Ok(s)) => EventView::ContentRead(Ok(s@)),
            SyncEvent::ContentRead(Err(e)) => EventView::ContentRead(Err(e@)),
            SyncEvent::HashFound(Ok(h)) => EventView::HashFound(Ok(opt_text(*h))),
            SyncEvent::HashFound(Err(e)) => EventView::HashFound(Err(e@)),
            SyncEvent::Clock(t) => EventView::Clock(*t),
            SyncEvent::Stored(Ok(_)) => EventView::Stored(Ok(())),
            SyncEvent::Stored(Err(e)) => EventView::Stored(Err(e@)),
        }
    }
}

impl View for SyncAction {
    type V = ActionView;

    open spec fn view(&self) -> ActionView {
        match self {
            SyncAction::ListPaths => ActionView::ListPaths,
            SyncAction::ReadContent(p) => ActionView::ReadContent(p@),
            SyncAction::LookUpHash { namespace, path } => ActionView::LookUpHash(
                namespace@,
                path@,
            ),
            SyncAction::ReadClock => ActionView::ReadClock,
            SyncAction::StoreDocument(d) => ActionView::StoreDocument(d@),
            SyncAction::StoreChunks { namespace, path, chunks } => ActionView::StoreChunks(
                namespace@,
                path@,
                chunk_record_views(chunks@),
            ),
            SyncAction::StoreTriggers { namespace, path, triggers } => ActionView::StoreTriggers(
                namespace@,
                path@,
                trigger_views(triggers@),
            ),
            SyncAction::StoreRelation(r) => ActionView::StoreRelation(r@),
            SyncAction::Finish(r) => ActionView::Finish(r@),
            SyncAction::Fail(e) => ActionView::Fail(e@),
            SyncAction::Misplaced => ActionView::Misplaced,
        }
    }
}

/// Where a run stands.
pub struct RunView {
    pub root: RootView,
    pub home: Option<Seq<u8>>,
    pub prefix: Seq<char>,
    pub force: bool,
    pub paths: Seq<Seq<char>>,
    pub next: nat,
    pub stage: Stage,
    pub document: Reading,
    pub report: ReportView,
}

/// The start of a run.
pub open spec fn run_start(
    root: RootView,
    namespace: Seq<char>,
    prefix: Seq<char>,
    force: bool,
    home: Option<Seq<u8>>,
) -> RunView {
    RunView {
        root,
        home,
        prefix,
        force,
        paths: seq![],
        next: 0,
        stage: Stage::Listing,
        document: Reading {
            namespace,
            path: seq![],
            content: seq![],
            at: Timestamp { secs: 0, nanos: 0 },
        },
        report: ReportView {
            namespace,
            wiki_root: root_shown(root),
            wiki_root_kind: root_kind(root),
            scanned: 0,
            indexed: 0,
            skipped: 0,
            chunks: 0,
            relations: 0,
            errors: seq![],
        },
    }
}

/// The paths that a run goes through, of those that were listed.
pub open spec fn listed_paths(root: RootView, paths: Seq<Seq<char>>) -> Seq<Seq<char>> {
    match root {
        RootView::Workspace(_) => normal_paths(paths),
        RootView::File(_) => in_order(paths),
    }
}

/// Whether a run takes a path up.
pub open spec fn takes_up(run: RunView, path: Seq<char>) -> bool {
    root_indexes(run.root, path, run.home) && starts_with(path, strip_trailing(run.prefix, '/'))
}

/// A run that goes on to the next document that it takes up.
pub open spec fn go_on(run: RunView) -> (RunView, ActionView)
    decreases run.paths.len() - run.next,
{
    if run.next >= run.paths.len() {
        (RunView { stage: Stage::Finished, ..run }, ActionView::Finish(run.report))
    } else {
        let path = run.paths[run.next as int];
        let ahead = RunView { next: run.next + 1, ..run };
        if takes_up(run, path) {
            (
                RunView {
                    stage: Stage::Reading,
                    document: Reading { path, ..run.document },
                    report: ReportView { scanned: run.report.scanned + 1, ..run.report },
                    ..ahead
                },
                ActionView::ReadContent(path),
            )
        } else {
            go_on(ahead)
        }
    }
}

/// A run with one more error in its report.
pub open spec fn with_error(run: RunView, e: Seq<char>) -> RunView {
    RunView { report: ReportView { errors: run.report.errors.push(e), ..run.report }, ..run }
}

/// A run that has taken its document into the index.
pub open spec fn with_indexed(run: RunView) -> RunView {
    RunView { report: ReportView { indexed: run.report.indexed + 1, ..run.report }, ..run }
}

/// A run that could not store something.
pub open spec fn broken_off(run: RunView, e: Seq<char>) -> (RunView, ActionView) {
    (
        RunView { stage: Stage::Failed, ..run },
        ActionView::Fail(ErrorView::ExecutionFailed(e)),
    )
}

/// The sum of two counts, as far as a report can hold it.
pub open spec fn count_up(a: nat, b: nat) -> nat {
    if a + b <= usize::MAX {
        a + b
    } else {
        usize::MAX as nat
    }
}

/// What follows on an event.
pub open spec fn step(run: RunView, event: EventView) -> (RunView, ActionView) {
    let doc = run.document;
    match (run.stage, event) {
        (Stage::Listing, EventView::Listed(Err(f))) => (
            RunView { stage: Stage::Failed, ..run },
            ActionView::Fail(list_error_of(f)),
        ),
        (Stage::Listing, EventView::Listed(Ok(paths))) => go_on(
            RunView { paths: listed_paths(run.root, paths), ..run },
        ),
        (Stage::Reading, EventView::ContentRead(Err(e))) => go_on(
            with_error(run, doc.path + ": read failed: "@ + e),
        ),
        (Stage::Reading, EventView::ContentRead(Ok(content))) => {
            let read = RunView { document: Reading { content, ..doc }, ..run };
            if run.force {
                (RunView { stage: Stage::Timing, ..read }, ActionView::ReadClock)
            } else {
                (
                    RunView { stage: Stage::LookingUp, ..read },
                    ActionView::LookUpHash(doc.namespace, doc.path),
                )
            }
        },
        (Stage::LookingUp, EventView::HashFound(found)) => {
            let timing = RunView { stage: Stage::Timing, ..run };
            match found {
                Ok(hash) => if hash == Some(doc.digest()) {
                    go_on(
                        RunView {
                            report: ReportView { skipped: run.report.skipped + 1, ..run.report },
                            ..run
                        },
                    )
                } else {
                    (timing, ActionView::ReadClock)
                },
                Err(e) => (
                    with_error(timing, doc.path + ": hash lookup failed: "@ + e),
                    ActionView::ReadClock,
                ),
            }
        },
        (Stage::Timing, EventView::Clock(at)) => {
            let dated = Reading { at, ..doc };
            (
                RunView { stage: Stage::Document, document: dated, ..run },
                ActionView::StoreDocument(document_of(dated)),
            )
        },
        (Stage::Document, EventView::Stored(Err(e))) => broken_off(
            run,
            "index document failed: "@ + e,
        ),
        (Stage::Document, EventView::Stored(Ok(_))) => (
            RunView { stage: Stage::Chunks, ..run },
            ActionView::StoreChunks(doc.namespace, doc.path, chunk_records_of(doc)),
        ),
        (Stage::Chunks, EventView::Stored(Err(e))) => broken_off(run, "index chunks failed: "@ + e),
        (Stage::Chunks, EventView::Stored(Ok(_))) => (
            RunView {
                stage: Stage::Triggers,
                report: ReportView {
                    chunks: count_up(run.report.chunks, chunk_records_of(doc).len()),
                    ..run.report
                },
                ..run
            },
            ActionView::StoreTriggers(doc.namespace, doc.path, trigger_records_of(doc)),
        ),
        (Stage::Triggers, EventView::Stored(Err(e))) => broken_off(
            run,
            "index triggers failed: "@ + e,
        ),
        (Stage::Triggers, EventView::Stored(Ok(_))) => match root_card(
            run.root,
            doc.path,
            doc.content,
            run.home,
        ) {
            Ok(Some(card)) => (
                RunView { stage: Stage::Relation, ..run },
                ActionView::StoreRelation(relation_record_of(doc, card)),
            ),
            Ok(None) => go_on(with_indexed(run)),
            Err(e) => go_on(with_indexed(with_error(run, e))),
        },
        (Stage::Relation, EventView::Stored(Err(e))) => broken_off(
            run,
            "index relation failed: "@ + e,
        ),
        (Stage::Relation, EventView::Stored(Ok(_))) => go_on(
            with_indexed(
                RunView {
                    report: ReportView { relations: run.report.relations + 1, ..run.report },
                    ..run
                },
            ),
        ),
        _ => (run, ActionView::Misplaced),
    }
}

/// Whether a run is between reading a document and being done with it.
pub open spec fn busy(stage: Stage) -> nat {
    match stage {
        Stage::Listing | Stage::Finished | Stage::Failed => 0,
        _ => 1,
    }
}

/// What holds of every run: the documents that were scanned are those that were
/// indexed, those that were skipped, the one at hand, and some for which the
/// report has an error.
pub open spec fn sound(run: RunView) -> bool {
    let r = run.report;
    &&& r.scanned <= run.next <= run.paths.len() <= usize::MAX
    &&& r.indexed + r.skipped + busy(run.stage) <= r.scanned
    &&& r.relations <= r.indexed
    &&& r.chunks <= usize::MAX
    &&& run.stage == Stage::Listing ==> run.next == 0
    &&& run.stage == Stage::Finished ==> run.next == run.paths.len()
    &&& run.stage != Stage::Failed ==> r.scanned <= r.indexed + r.skipped + busy(run.stage)
        + r.errors.len()
}

/// A synchronization under way.
#[derive(Debug, PartialEq)]
pub struct SyncRun {
    pub root: WikiRoot,
    pub home: Option<Vec<u8>>,
    pub prefix: String,
    pub force: bool,
    pub paths: Vec<String>,
    pub next: usize,
    pub stage: Stage,
    pub document: DocumentReading,
    pub report: WikiSyncReport,
}

impl View for SyncRun {
    type V = RunView;

    open spec fn view(&self) -> RunView {
        RunView {
            root: self.root@,
            home: opt_bytes(self.home),
            prefix: self.prefix@,
            force: self.force,
            paths: texts(self.paths@),
            next: self.next as nat,
            stage: self.stage,
            document: self.document@,
            report: self.report@,
        }
    }
}

proof fn lemma_go_on(run: RunView)
    requires
        run.next <= run.paths.len(),
        run.report.scanned <= run.next,
        run.report.indexed + run.report.skipped <= run.report.scanned,
        run.report.scanned <= run.report.indexed + run.report.skipped + run.report.errors.len(),
        run.report.relations <= run.report.indexed,
        run.report.chunks <= usize::MAX,
        run.paths.len() <= usize::MAX,
    ensures
        sound(go_on(run).0),
    decreases run.paths.len() - run.next,
{
    if run.next < run.paths.len() && !takes_up(run, run.paths[run.next as int]) {
        lemma_go_on(RunView { next: run.next + 1, ..run });
    }
}

/// A run is sound at its start and stays sound, whatever its actions come to.
pub proof fn law_runs_stay_sound(run: RunView, event: EventView)
    requires
        sound(run),
        event matches EventView::Listed(Ok(paths)) ==> paths.len() <= usize::MAX,
    ensures
        sound(step(run, event).0),
{
    match (run.stage, event) {
        (Stage::Listing, EventView::Listed(Ok(paths))) => {
            crate::wiki_tool::listing::law_in_order_sorts(paths);
            assert(listed_paths(run.root, paths).len() == paths.len()) by {
                broadcast use vstd::seq_lib::group_to_multiset_ensures;

                assert(in_order(paths).to_multiset().len() == in_order(paths).len());
            }
            lemma_go_on(RunView { paths: listed_paths(run.root, paths), ..run });
        },
        (Stage::Reading, EventView::ContentRead(Err(e))) => {
            lemma_go_on(with_error(run, run.document.path + ": read failed: "@ + e));
        },
        (Stage::LookingUp, EventView::HashFound(Ok(_))) => {
            lemma_go_on(
                RunView {
                    report: ReportView { skipped: run.report.skipped + 1, ..run.report },
                    ..run
                },
            );
        },
        (Stage::Triggers, EventView::Stored(Ok(_))) => {
            lemma_go_on(with_indexed(run));
            match root_card(run.root, run.document.path, run.document.content, run.home) {
                Err(e) => {
                    lemma_go_on(with_indexed(with_error(run, e)));
                },
                _ => {},
            }
        },
        (Stage::Relation, EventView::Stored(Ok(_))) => {
            lemma_go_on(
                with_indexed(
                    RunView {
                        report: ReportView { relations: run.report.relations + 1, ..run.report },
                        ..run
                    },
                ),
            );
        },
        _ => {},
    }
}

fn copy_report(r: &WikiSyncReport) -> (c: WikiSyncReport)
    ensures
        c@ == r@,
{
    WikiSyncReport {
        namespace: r.namespace.clone(),
        wiki_root: r.wiki_root.clone(),
        wiki_root_kind: r.wiki_root_kind.clone(),
        scanned: r.scanned,
        indexed: r.indexed,
        skipped: r.skipped,
        chunks: r.chunks,
        relations: r.relations,
        errors: copy_texts(&r.errors),
    }
}

/// A run reads only documents that its root indexes and that its prefix covers.
pub proof fn law_runs_read_what_they_cover(run: RunView, event: EventView)
    ensures
        step(run, event).1 matches ActionView::ReadContent(path) ==> root_indexes(
            run.root,
            path,
            run.home,
        ) && starts_with(path, strip_trailing(run.prefix, '/')),
{
    lemma_go_on_covers(RunView { paths: step_paths(run, event), ..run });
    lemma_go_on_covers(with_indexed(run));
    match (run.stage, event) {
        (Stage::Reading, EventView::ContentRead(Err(e))) => {
            lemma_go_on_covers(with_error(run, run.document.path + ": read failed: "@ + e));
        },
        (Stage::LookingUp, EventView::HashFound(Ok(_))) => {
            lemma_go_on_covers(
                RunView {
                    report: ReportView { skipped: run.report.skipped + 1, ..run.report },
                    ..run
                },
            );
        },
        (Stage::Triggers, EventView::Stored(Ok(_))) => {
            match root_card(run.root, run.document.path, run.document.content, run.home) {
                Err(e) => {
                    lemma_go_on_covers(with_indexed(with_error(run, e)));
                },
                _ => {},
            }
        },
        (Stage::Relation, EventView::Stored(Ok(_))) => {
            lemma_go_on_covers(
                with_indexed(
                    RunView {
                        report: ReportView { relations: run.report.relations + 1, ..run.report },
                        ..run
                    },
                ),
            );
        },
        _ => {},
    }
}

spec fn step_paths(run: RunView, event: EventView) -> Seq<Seq<char>> {
    match event {
        EventView::Listed(Ok(paths)) => listed_paths(run.root, paths),
        _ => run.paths,
    }
}

proof fn lemma_go_on_covers(run: RunView)
    ensures
        go_on(run).1 matches ActionView::ReadContent(path) ==> takes_up(run, path),
        go_on(run).1 is ReadContent || go_on(run).1 is Finish,
    decreases run.paths.len() - run.next,
{
    if run.next < run.paths.len() && !takes_up(run, run.paths[run.next as int]) {
        lemma_go_on_covers(RunView { next: run.next + 1, ..run });
    }
}

/// A document is skipped, with nothing stored, where the digest in its last
/// record is that of its content now.
pub proof fn law_unchanged_documents_are_skipped(run: RunView, record: DocumentView)
    requires
        run.stage == Stage::LookingUp,
        exists|before: Reading|
            before.content == run.document.content && record == #[trigger] document_of(before),
    ensures
        ({
            let event = EventView::HashFound(Ok(Some(record.content_sha256)));
            let (after, action) = step(run, event);
            &&& action is ReadContent || action is Finish
            &&& after.report.skipped == run.report.skipped + 1
            &&& after.report.indexed == run.report.indexed
            &&& after.report.errors == run.report.errors
        }),
{
    let skipped = RunView {
        report: ReportView { skipped: run.report.skipped + 1, ..run.report },
        ..run
    };
    lemma_go_on_covers(skipped);
    lemma_go_on_counts(skipped);
}

proof fn lemma_go_on_counts(run: RunView)
    ensures
        go_on(run).0.report.skipped == run.report.skipped,
        go_on(run).0.report.indexed == run.report.indexed,
        go_on(run).0.report.errors == run.report.errors,
    decreases run.paths.len() - run.next,
{
    if run.next < run.paths.len() && !takes_up(run, run.paths[run.next as int]) {
        lemma_go_on_counts(RunView { next: run.next + 1, ..run });
    }
}

/// A run that is forced stores every document that it can read, whatever the
/// index has of it.
pub proof fn law_forced_runs_store_what_they_read(
    run: RunView,
    content: Seq<char>,
    at: Timestamp,
)
    requires
        run.stage == Stage::Reading,
        run.force,
    ensures
        ({
            let (read, first) = step(run, EventView::ContentRead(Ok(content)));
            let (_, second) = step(read, EventView::Clock(at));
            &&& first == ActionView::ReadClock
            &&& second == ActionView::StoreDocument(
                document_of(Reading { content, at, ..run.document }),
            )
        }),
{
}

/// All that a run stores of a document carries the same namespace, path,
/// digest and time.
pub proof fn law_records_of_a_document_agree(d: Reading, card: CardView)
    ensures
        document_of(d).content_sha256 == text_digest(d.content),
        forall|i: int|
            0 <= i < chunk_records_of(d).len() ==> {
                let c = #[trigger] chunk_records_of(d)[i];
                c.namespace == d.namespace && c.path == d.path && c.content_sha256
                    == document_of(d).content_sha256 && c.indexed_at == d.at
            },
        forall|i: int|
            0 <= i < trigger_records_of(d).len() ==> {
                let t = #[trigger] trigger_records_of(d)[i];
                t.namespace == d.namespace && t.path == d.path && t.status == document_of(d).status
                    && t.priority == document_of(d).priority && t.indexed_at == d.at
            },
        ({
            let r = relation_record_of(d, card);
            r.namespace == d.namespace && r.path == d.path && r.content_sha256 == document_of(
                d,
            ).content_sha256 && r.indexed_at == d.at
        }),
{
}

/// How many steps a run that has its paths can still take, at most.
pub open spec fn steps_left(run: RunView) -> int {
    10 * (run.paths.len() - run.next) + match run.stage {
        Stage::Listing => 9int,
        Stage::Reading => 8,
        Stage::LookingUp => 7,
        Stage::Timing => 6,
        Stage::Document => 5,
        Stage::Chunks => 4,
        Stage::Triggers => 3,
        Stage::Relation => 2,
        Stage::Finished | Stage::Failed => 0,
    }
}

/// A run comes to an end: every event that it waits for brings it nearer.
pub proof fn law_runs_come_to_an_end(run: RunView, event: EventView)
    requires
        sound(run),
        run.stage != Stage::Listing,
    ensures
        0 <= steps_left(run),
        step(run, event).1 is Misplaced ==> step(run, event).0 == run,
        !(step(run, event).1 is Misplaced) ==> 0 <= steps_left(step(run, event).0) < steps_left(
            run,
        ),
{
    match (run.stage, event) {
        (Stage::Reading, EventView::ContentRead(Err(e))) => {
            lemma_go_on_nearer(with_error(run, run.document.path + ": read failed: "@ + e));
        },
        (Stage::LookingUp, EventView::HashFound(Ok(_))) => {
            lemma_go_on_nearer(
                RunView {
                    report: ReportView { skipped: run.report.skipped + 1, ..run.report },
                    ..run
                },
            );
        },
        (Stage::Triggers, EventView::Stored(Ok(_))) => {
            lemma_go_on_nearer(with_indexed(run));
            match root_card(run.root, run.document.path, run.document.content, run.home) {
                Err(e) => {
                    lemma_go_on_nearer(with_indexed(with_error(run, e)));
                },
                _ => {},
            }
        },
        (Stage::Relation, EventView::Stored(Ok(_))) => {
            lemma_go_on_nearer(
                with_indexed(
                    RunView {
                        report: ReportView { relations: run.report.relations + 1, ..run.report },
                        ..run
                    },
                ),
            );
        },
        _ => {},
    }
}

proof fn lemma_go_on_nearer(run: RunView)
    requires
        run.next <= run.paths.len(),
    ensures
        !(go_on(run).1 is Misplaced),
        0 <= steps_left(go_on(run).0) <= 10 * (run.paths.len() - run.next),
        run.next < run.paths.len() ==> steps_left(go_on(run).0) < 10 * (run.paths.len()
            - run.next),
    decreases run.paths.len() - run.next,
{
    if run.next < run.paths.len() && !takes_up(run, run.paths[run.next as int]) {
        lemma_go_on_nearer(RunView { next: run.next + 1, ..run });
    }
}

/// The report of a run that has finished: each document that it scanned was
/// indexed, was skipped, or has an error in the report.
pub proof fn law_finished_runs_account_for_every_document(run: RunView)
    requires
        sound(run),
        run.stage == Stage::Finished,
    ensures
        run.next == run.paths.len(),
        run.report.indexed + run.report.skipped <= run.report.scanned <= run.report.indexed
            + run.report.skipped + run.report.errors.len(),
        run.report.relations <= run.report.indexed,
{
}

impl SyncRun {
    /// The start of a run, for the user with this home directory. Its first
    /// action is to list the paths of the wiki.
    pub fn start_in(
        root: WikiRoot,
        namespace: &str,
        prefix: &str,
        force: bool,
        home: Option<&[u8]>,
    ) -> (r: (SyncRun, SyncAction))
        ensures
            r.0@ == run_start(root@, namespace@, prefix@, force, opt_slice(home)),
            r.1@ == ActionView::ListPaths,
            sound(r.0@),
    {
        let report = WikiSyncReport {
            namespace: namespace.to_owned(),
            wiki_root: root.display(),
            wiki_root_kind: root.kind().to_owned(),
            scanned: 0,
            indexed: 0,
            skipped: 0,
            chunks: 0,
            relations: 0,
            errors: Vec::new(),
        };
        let document = DocumentReading {
            namespace: namespace.to_owned(),
            path: "".to_owned(),
            content: "".to_owned(),
            at: Timestamp { secs: 0, nanos: 0 },
        };
        let home = match home {
            Some(h) => Some(slice_to_vec(h)),
            None => None,
        };
        let run = SyncRun {
            root,
            home,
            prefix: prefix.to_owned(),
            force,
            paths: Vec::new(),
            next: 0,
            stage: Stage::Listing,
            document,
            report,
        };
        proof {
            reveal_strlit("");
            assert(run.paths@ =~= Seq::<String>::empty());
            assert(run@.paths =~= Seq::<Seq<char>>::empty());
            assert(run@.report.errors =~= Seq::<Seq<char>>::empty());
            assert(run@.document.path =~= Seq::<char>::empty());
            assert(run@.document.content =~= Seq::<char>::empty());
        }
        (run, SyncAction::ListPaths)
    }

    /// The start of a run.
    pub fn start(root: WikiRoot, namespace: &str, prefix: &str, force: bool) -> (r: (
        SyncRun,
        SyncAction,
    ))
        ensures
            exists|home: Option<Seq<u8>>|
                r.0@ == #[trigger] run_start(root@, namespace@, prefix@, force, home),
            r.1@ == ActionView::ListPaths,
            sound(r.0@),
    {
        let home = home_dir();
        Self::start_in(root, namespace, prefix, force, as_slice_opt(&home))
    }

    /// Whether the run takes a path up.
    fn wants(&self, path: &str) -> (r: bool)
        ensures
            r == takes_up(self@, path@),
    {
        let prefix = chars_of(self.prefix.as_str());
        let prefix = without_trailing(prefix.as_slice(), '/');
        let chars = chars_of(path);
        self.root.is_indexable_path_in(path, as_slice_opt(&self.home)) && text_at(
            chars.as_slice(),
            prefix,
            0,
        )
    }

    /// Goes on to the next document that the run takes up.
    fn advance(&mut self) -> (r: SyncAction)
        requires
            old(self).next <= old(self).paths@.len(),
            old(self).report.scanned <= old(self).next,
        ensures
            (final(self)@, r@) == go_on(old(self)@),
    {
        let ghost start = self@;
        let mut found: Option<String> = None;
        while found.is_none() && self.next < self.paths.len()
            invariant
                self.next <= self.paths@.len(),
                self.report.scanned <= self.next,
                match found {
                    None => go_on(self@) == go_on(start),
                    Some(path) => {
                        &&& 0 < self.next
                        &&& self.report.scanned < self.next
                        &&& path@ == self@.paths[self.next - 1]
                        &&& takes_up(self@, path@)
                        &&& go_on(RunView { next: (self.next - 1) as nat, ..self@ }) == go_on(start)
                    },
                },
            decreases (if found is Some { 0 } else { self.paths@.len() - self.next + 1 }),
        {
            let ghost here = self@;
            let path = self.paths[self.next].clone();
            assert(path@ == here.paths[self.next as int]);
            if self.wants(path.as_str()) {
                found = Some(path);
            }
            self.next += 1;
            assert(self@ == RunView { next: here.next + 1, ..here });
            assert(found is Some ==> RunView { next: (self.next - 1) as nat, ..self@ } == here);
        }
        match found {
            None => {
                self.stage = Stage::Finished;
                SyncAction::Finish(copy_report(&self.report))
            },
            Some(path) => {
                self.report.scanned += 1;
                self.stage = Stage::Reading;
                self.document.path = path.clone();
                SyncAction::ReadContent(path)
            },
        }
    }

    fn add_error(&mut self, e: String)
        ensures
            final(self)@ == with_error(old(self)@, e@),
    {
        let ghost before = self.report.errors@;
        self.report.errors.push(e);
        assert(texts(self.report.errors@) =~= texts(before).push(e@));
    }

    fn break_off(&mut self, e: String) -> (r: SyncAction)
        ensures
            (final(self)@, r@) == broken_off(old(self)@, e@),
    {
        self.stage = Stage::Failed;
        SyncAction::Fail(ToolError::ExecutionFailed(e))
    }

    /// Takes in what came of the last action, and gives the next one.
    pub fn step(&mut self, event: SyncEvent) -> (r: SyncAction)
        requires
            sound(old(self)@),
        ensures
            (final(self)@, r@) == step(old(self)@, event@),
            sound(final(self)@),
    {
        proof {
            if let SyncEvent::Listed(Ok(paths)) = &event {
                assert(texts(paths@).len() == paths.len());
            }
            law_runs_stay_sound(self@, event@);
        }
        match (self.stage, event) {
            (Stage::Listing, SyncEvent::Listed(Err(f))) => {
                self.stage = Stage::Failed;
                SyncAction::Fail(list_error(&f))
            },
            (Stage::Listing, SyncEvent::Listed(Ok(paths))) => {
                self.paths = match &self.root {
                    WikiRoot::Workspace { .. } => normalize_paths(&paths),
                    WikiRoot::File { .. } => sort_paths(paths),
                };
                self.advance()
            },
            (Stage::Reading, SyncEvent::ContentRead(Err(e))) => {
                self.add_error(
                    concat3(self.document.path.as_str(), ": read failed: ", e.as_str()),
                );
                self.advance()
            },
            (Stage::Reading, SyncEvent::ContentRead(Ok(content))) => {
                self.document.content = content;
                if self.force {
                    self.stage = Stage::Timing;
                    SyncAction::ReadClock
                } else {
                    self.stage = Stage::LookingUp;
                    SyncAction::LookUpHash {
                        namespace: self.document.namespace.clone(),
                        path: self.document.path.clone(),
                    }
                }
            },
            (Stage::LookingUp, SyncEvent::HashFound(Ok(found))) => {
                let hash = content_sha256(self.document.content.as_str());
                let same = match &found {
                    Some(h) => same_text(h.as_str(), hash.as_str()),
                    None => false,
                };
                if same {
                    self.report.skipped += 1;
                    self.advance()
                } else {
                    self.stage = Stage::Timing;
                    SyncAction::ReadClock
                }
            },
            (Stage::LookingUp, SyncEvent::HashFound(Err(e))) => {
                self.add_error(
                    concat3(self.document.path.as_str(), ": hash lookup failed: ", e.as_str()),
                );
                self.stage = Stage::Timing;
                SyncAction::ReadClock
            },
            (Stage::Timing, SyncEvent::Clock(at)) => {
                self.document.at = at;
                self.stage = Stage::Document;
                SyncAction::StoreDocument(self.document.document_record())
            },
            (Stage::Document, SyncEvent::Stored(Err(e))) => {
                self.break_off(concat2("index document failed: ", e.as_str()))
            },
            (Stage::Document, SyncEvent::Stored(Ok(_))) => {
                self.stage = Stage::Chunks;
                SyncAction::StoreChunks {
                    namespace: self.document.namespace.clone(),
                    path: self.document.path.clone(),
                    chunks: self.document.chunk_records(),
                }
            },
            (Stage::Chunks, SyncEvent::Stored(Err(e))) => {
                self.break_off(concat2("index chunks failed: ", e.as_str()))
            },
            (Stage::Chunks, SyncEvent::Stored(Ok(_))) => {
                let chunks = self.document.chunk_records();
                assert(chunk_record_views(chunks@).len() == chunks@.len());
                self.report.chunks = self.report.chunks.saturating_add(chunks.len());
                self.stage = Stage::Triggers;
                SyncAction::StoreTriggers {
                    namespace: self.document.namespace.clone(),
                    path: self.document.path.clone(),
                    triggers: self.document.trigger_records(),
                }
            },
            (Stage::Triggers, SyncEvent::Stored(Err(e))) => {
                self.break_off(concat2("index triggers failed: ", e.as_str()))
            },
            (Stage::Triggers, SyncEvent::Stored(Ok(_))) => {
                match self.root.parse_relation_card_in(
                    self.document.path.as_str(),
                    self.document.content.as_str(),
                    as_slice_opt(&self.home),
                ) {
                    Ok(Some(card)) => {
                        self.stage = Stage::Relation;
                        SyncAction::StoreRelation(self.document.relation_record(card))
                    },
                    Ok(None) => {
                        self.report.indexed += 1;
                        self.advance()
                    },
                    Err(e) => {
                        self.add_error(e);
                        self.report.indexed += 1;
                        self.advance()
                    },
                }
            },
            (Stage::Relation, SyncEvent::Stored(Err(e))) => {
                self.break_off(concat2("index relation failed: ", e.as_str()))
            },
            (Stage::Relation, SyncEvent::Stored(Ok(_))) => {
                self.report.relations += 1;
                self.report.indexed += 1;
                self.advance()
            },
            _ => SyncAction::Misplaced,
        }
    }
}

/// A document that cannot be read is named in the report with the reason, and the
/// run goes on; so is one whose digest cannot be looked up, which is then indexed.
pub proof fn law_failures_are_named(run: RunView, e: Seq<char>)
    ensures
        run.stage == Stage::Reading ==> {
            let (after, action) = step(run, EventView::ContentRead(Err(e)));
            &&& after.report.errors == run.report.errors.push(
                run.document.path + ": read failed: "@ + e,
            )
            &&& after.report.indexed == run.report.indexed
            &&& after.report.skipped == run.report.skipped
            &&& action is ReadContent || action is Finish
        },
        run.stage == Stage::LookingUp ==> {
            let (after, action) = step(run, EventView::HashFound(Err(e)));
            &&& after.report.errors == run.report.errors.push(
                run.document.path + ": hash lookup failed: "@ + e,
            )
            &&& after.document == run.document
            &&& after.stage == Stage::Timing
            &&& action is ReadClock
        },
{
    let failed = with_error(run, run.document.path + ": read failed: "@ + e);
    lemma_go_on_counts(failed);
    lemma_go_on_covers(failed);
}

/// A run that cannot list the paths or store something breaks off, and says what it
/// could not do.
pub proof fn law_runs_break_off(run: RunView, e: Seq<char>, f: ListFailure)
    ensures
        run.stage == Stage::Document ==> step(run, EventView::Stored(Err(e))).1 == ActionView::Fail(
            ErrorView::ExecutionFailed("index document failed: "@ + e),
        ),
        run.stage == Stage::Chunks ==> step(run, EventView::Stored(Err(e))).1 == ActionView::Fail(
            ErrorView::ExecutionFailed("index chunks failed: "@ + e),
        ),
        run.stage == Stage::Triggers ==> step(run, EventView::Stored(Err(e))).1 == ActionView::Fail(
            ErrorView::ExecutionFailed("index triggers failed: "@ + e),
        ),
        run.stage == Stage::Relation ==> step(run, EventView::Stored(Err(e))).1 == ActionView::Fail(
            ErrorView::ExecutionFailed("index relation failed: "@ + e),
        ),
        run.stage == Stage::Listing ==> step(run, EventView::Listed(Err(f))).1 == ActionView::Fail(
            list_error_of(f),
        ),
{
}

/// The steps of a document: what is read is looked up unless the run is forced; a
/// document whose digest is not the stored one is stored at the time that is given:
/// its record, then its chunks, then its keywords, then its fact if it states one.
pub proof fn law_documents_are_stored_in_steps(
    run: RunView,
    content: Seq<char>,
    hash: Option<Seq<char>>,
    at: Timestamp,
)
    ensures
        run.stage == Stage::Reading ==> {
            let (after, action) = step(run, EventView::ContentRead(Ok(content)));
            &&& after.document == Reading { content, ..run.document }
            &&& run.force ==> action is ReadClock
            &&& !run.force ==> action == ActionView::LookUpHash(
                run.document.namespace,
                run.document.path,
            )
        },
        run.stage == Stage::LookingUp && hash != Some(text_digest(run.document.content)) ==> {
            let (after, action) = step(run, EventView::HashFound(Ok(hash)));
            after.document == run.document && action is ReadClock && after.report == run.report
        },
        run.stage == Stage::Timing ==> step(run, EventView::Clock(at)).1
            == ActionView::StoreDocument(document_of(Reading { at, ..run.document })),
        run.stage == Stage::Document ==> step(run, EventView::Stored(Ok(()))).1
            == ActionView::StoreChunks(
            run.document.namespace,
            run.document.path,
            chunk_records_of(run.document),
        ),
        run.stage == Stage::Chunks ==> step(run, EventView::Stored(Ok(()))).1
            == ActionView::StoreTriggers(
            run.document.namespace,
            run.document.path,
            trigger_records_of(run.document),
        ),
        run.stage == Stage::Triggers ==> (root_card(
            run.root,
            run.document.path,
            run.document.content,
            run.home,
        ) matches Ok(Some(card)) ==> step(run, EventView::Stored(Ok(()))).1
            == ActionView::StoreRelation(relation_record_of(run.document, card))),
{
}

/// The paths that a run goes through are those that were listed: of a directory in
/// the order of their characters, of a workspace in their normal form.
pub proof fn law_listed_paths_are_kept(root: RootView, paths: Seq<Seq<char>>, i: int)
    ensures
        root is File ==> listed_paths(root, paths).to_multiset() == paths.to_multiset()
            && crate::wiki_tool::listing::is_in_order(listed_paths(root, paths)),
        root is Workspace ==> listed_paths(root, paths).len() == paths.len() && (0 <= i
            < paths.len() ==> listed_paths(root, paths)[i]
            == crate::knowledge_wiki::paths::normal_path(paths[i])),
{
    crate::wiki_tool::listing::law_in_order_sorts(paths);
}

/// A run starts with what it was asked for, before the first path, and with a report
/// that counts nothing.
pub proof fn law_runs_start_at_the_beginning(
    root: RootView,
    namespace: Seq<char>,
    prefix: Seq<char>,
    force: bool,
    home: Option<Seq<u8>>,
)
    ensures
        ({
            let run = run_start(root, namespace, prefix, force, home);
            &&& run.root == root
            &&& run.home == home
            &&& run.prefix == prefix
            &&& run.force == force
            &&& run.paths.len() == 0
            &&& run.next == 0
            &&& run.stage == Stage::Listing
            &&& run.document.namespace == namespace
            &&& run.report.namespace == namespace
            &&& run.report.wiki_root == root_shown(root)
            &&& run.report.wiki_root_kind == root_kind(root)
            &&& run.report.scanned == 0
            &&& run.report.indexed == 0
            &&& run.report.skipped == 0
            &&& run.report.chunks == 0
            &&& run.report.relations == 0
            &&& run.report.errors.len() == 0
        }),
{
}

} // verus!

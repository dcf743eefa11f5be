//! Whole runs of a synchronization, from their start through all that comes in.

use vstd::prelude::*;

use crate::digest::text_digest;
use crate::knowledge_wiki::types::{ChunkView, DocumentView, RelationView, ReportView, TriggerView};
use crate::text::{starts_with, strip_trailing};
use crate::timestamp::Timestamp;
use crate::wiki_tool::listing::{in_order, law_in_order_sorts};
use crate::wiki_tool::records::{chunk_records_of, document_of, relation_record_of};
use crate::wiki_tool::records::{trigger_records_of, Reading};
use crate::wiki_tool::root::{root_card, root_indexes, root_kind, root_shown, RootView};
use crate::wiki_tool::sync::{busy, go_on, listed_paths, run_start, step, takes_up, with_error};
use crate::wiki_tool::sync::{with_indexed, ActionView, EventView, RunView, Stage};

verus! {

/// A run after some events.
pub open spec fn after(run: RunView, events: Seq<EventView>) -> RunView
    decreases events.len(),
{
    if events.len() == 0 {
        run
    } else {
        step(after(run, events.drop_last()), events.last()).0
    }
}

/// The paths that a run was handed, once it was.
pub open spec fn listing_of(run: RunView, events: Seq<EventView>) -> Option<Seq<Seq<char>>>
    decreases events.len(),
{
    if events.len() == 0 {
        None
    } else {
        match (after(run, events.drop_last()).stage, events.last()) {
            (Stage::Listing, EventView::Listed(Ok(paths))) => Some(paths),
            _ => listing_of(run, events.drop_last()),
        }
    }
}

/// How many documents a run could not read.
pub open spec fn failed_reads(run: RunView, events: Seq<EventView>) -> nat
    decreases events.len(),
{
    if events.len() == 0 {
        0
    } else {
        let before = failed_reads(run, events.drop_last());
        match (after(run, events.drop_last()).stage, events.last()) {
            (Stage::Reading, EventView::ContentRead(Err(_))) => before + 1,
            _ => before,
        }
    }
}

/// How many of some paths a run under this root and with this prefix takes up.
pub open spec fn how_many(
    root: RootView,
    home: Option<Seq<u8>>,
    prefix: Seq<char>,
    paths: Seq<Seq<char>>,
) -> nat
    decreases paths.len(),
{
    if paths.len() == 0 {
        0
    } else {
        let before = how_many(root, home, prefix, paths.drop_last());
        if root_indexes(root, paths.last(), home) && starts_with(
            paths.last(),
            strip_trailing(prefix, '/'),
        ) {
            before + 1
        } else {
            before
        }
    }
}

/// How many of the paths that a run has behind it it has taken up.
pub open spec fn taken(run: RunView) -> nat {
    how_many(run.root, run.home, run.prefix, run.paths.take(run.next as int))
}

/// A run that goes on passes by what it does not take up, and comes to the next
/// path that it does, or to the end.
proof fn lemma_go_on_exact(run: RunView)
    requires
        run.next <= run.paths.len(),
        run.report.scanned == taken(run),
    ensures
        ({
            let (out, action) = go_on(run);
            &&& out.root == run.root && out.home == run.home && out.prefix == run.prefix
            &&& out.force == run.force && out.paths == run.paths
            &&& out.document.namespace == run.document.namespace
            &&& run.next <= out.next <= out.paths.len()
            &&& out.report.scanned == taken(out)
            &&& out.report == ReportView {
                scanned: run.report.scanned + busy(out.stage),
                ..run.report
            }
            &&& match out.stage {
                Stage::Finished => out.next == out.paths.len() && action == ActionView::Finish(
                    out.report,
                ),
                Stage::Reading => run.next < out.next && out.document.path == out.paths[out.next
                    - 1] && takes_up(out, out.document.path) && action == ActionView::ReadContent(
                    out.document.path,
                ),
                _ => false,
            }
            &&& forall|i: int|
                run.next <= i < out.next - busy(out.stage) ==> !takes_up(
                    out,
                    #[trigger] out.paths[i],
                )
        }),
    decreases run.paths.len() - run.next,
{
    if run.next < run.paths.len() {
        let n = run.next as int;
        let done = run.paths.take(n + 1);
        assert(done.drop_last() =~= run.paths.take(n));
        assert(done.last() == run.paths[n]);
        if !takes_up(run, run.paths[n]) {
            lemma_go_on_exact(RunView { next: run.next + 1, ..run });
        }
    }
}

/// What holds of the counts of a run, where so many reads have failed.
spec fn counted(run: RunView, failed: nat) -> bool {
    let r = run.report;
    &&& run.next <= run.paths.len()
    &&& r.scanned == taken(run)
    &&& run.stage == Stage::Listing ==> run.next == 0 && r.scanned == 0
    &&& run.stage == Stage::Finished ==> run.next == run.paths.len()
    &&& run.stage != Stage::Failed ==> r.scanned == r.indexed + r.skipped + busy(run.stage) + failed
}

proof fn lemma_step_counts(run: RunView, event: EventView, failed: nat)
    requires
        counted(run, failed),
    ensures
        ({
            let (out, _) = step(run, event);
            let more: nat = match (run.stage, event) {
                (Stage::Reading, EventView::ContentRead(Err(_))) => 1,
                _ => 0,
            };
            &&& counted(out, failed + more)
            &&& out.root == run.root && out.home == run.home && out.prefix == run.prefix
            &&& match (run.stage, event) {
                (Stage::Listing, EventView::Listed(Ok(paths))) => out.paths == listed_paths(
                    run.root,
                    paths,
                ),
                _ => out.paths == run.paths,
            }
            &&& out.stage == Stage::Listing ==> run.stage == Stage::Listing
            &&& run.stage == Stage::Listing && out.stage != Stage::Listing && out.stage
                != Stage::Failed ==> (event matches EventView::Listed(Ok(_)))
            &&& run.stage == Stage::Failed ==> out.stage == Stage::Failed
            &&& (event matches EventView::Listed(Ok(_))) ==> out.stage != Stage::Listing
        }),
{
    match (run.stage, event) {
        (Stage::Listing, EventView::Listed(Ok(paths))) => {
            let listed = RunView { paths: listed_paths(run.root, paths), ..run };
            assert(listed.paths.take(0) =~= Seq::<Seq<char>>::empty());
            lemma_go_on_exact(listed);
        },
        (Stage::Reading, EventView::ContentRead(Err(e))) => {
            lemma_go_on_exact(with_error(run, run.document.path + ": read failed: "@ + e));
        },
        (Stage::LookingUp, EventView::HashFound(Ok(_))) => {
            lemma_go_on_exact(
                RunView {
                    report: ReportView { skipped: run.report.skipped + 1, ..run.report },
                    ..run
                },
            );
        },
        (Stage::Triggers, EventView::Stored(Ok(_))) => {
            lemma_go_on_exact(with_indexed(run));
            match root_card(run.root, run.document.path, run.document.content, run.home) {
                Err(e) => {
                    lemma_go_on_exact(with_indexed(with_error(run, e)));
                },
                _ => {},
            }
        },
        (Stage::Relation, EventView::Stored(Ok(_))) => {
            lemma_go_on_exact(
                with_indexed(
                    RunView {
                        report: ReportView { relations: run.report.relations + 1, ..run.report },
                        ..run
                    },
                ),
            );
        },
        _ => {},
    }
}

proof fn lemma_counts(
    root: RootView,
    namespace: Seq<char>,
    prefix: Seq<char>,
    force: bool,
    home: Option<Seq<u8>>,
    events: Seq<EventView>,
)
    ensures
        ({
            let start = run_start(root, namespace, prefix, force, home);
            let run = after(start, events);
            &&& counted(run, failed_reads(start, events))
            &&& run.root == root && run.home == home && run.prefix == prefix
            &&& run.stage != Stage::Failed ==> match listing_of(start, events) {
                Some(paths) => run.stage != Stage::Listing && run.paths == listed_paths(root, paths),
                None => run.stage == Stage::Listing,
            }
        }),
    decreases events.len(),
{
    let start = run_start(root, namespace, prefix, force, home);
    if events.len() == 0 {
        assert(start.paths.take(0) =~= Seq::<Seq<char>>::empty());
    } else {
        let front = events.drop_last();
        lemma_counts(root, namespace, prefix, force, home, front);
        lemma_step_counts(after(start, front), events.last(), failed_reads(start, front));
    }
}

/// The counts of a run, whatever came of its actions: it has scanned as many
/// documents as it has taken up of the paths behind it, and unless it broke off,
/// each of them has been indexed, has been skipped, could not be read or is at
/// hand. A run that has finished has all of the listed paths behind it and no
/// document at hand.
pub proof fn law_runs_count_what_they_take_up(
    root: RootView,
    namespace: Seq<char>,
    prefix: Seq<char>,
    force: bool,
    home: Option<Seq<u8>>,
    events: Seq<EventView>,
)
    ensures
        ({
            let start = run_start(root, namespace, prefix, force, home);
            let run = after(start, events);
            let r = run.report;
            &&& r.scanned == how_many(root, home, prefix, run.paths.take(run.next as int))
            &&& run.stage != Stage::Failed ==> r.scanned == r.indexed + r.skipped + busy(run.stage)
                + failed_reads(start, events)
            &&& run.stage == Stage::Finished ==> {
                &&& listing_of(start, events) matches Some(paths) && r.scanned == how_many(
                    root,
                    home,
                    prefix,
                    listed_paths(root, paths),
                )
                &&& r.scanned == r.indexed + r.skipped + failed_reads(start, events)
            }
        }),
{
    lemma_counts(root, namespace, prefix, force, home, events);
    let start = run_start(root, namespace, prefix, force, home);
    let run = after(start, events);
    assert(run.paths.take(run.paths.len() as int) =~= run.paths);
}

/// A wiki whose documents can all be read: its paths as they are listed, and the
/// content of each document.
pub struct WikiView {
    pub listing: Seq<Seq<char>>,
    pub contents: spec_fn(Seq<char>) -> Seq<char>,
}

/// How far a run has come whose actions are all performed: where it stands, what
/// it asks for, the digests that are stored for namespaces and paths, and what it
/// has stored itself: of each document the record, the chunks, the keywords and the
/// fact that it stored last, and how many of them it stored in all.
pub struct Progress {
    pub run: RunView,
    pub action: ActionView,
    pub digests: Map<(Seq<char>, Seq<char>), Seq<char>>,
    pub documents: Map<(Seq<char>, Seq<char>), DocumentView>,
    pub chunks: Map<(Seq<char>, Seq<char>), Seq<ChunkView>>,
    pub triggers: Map<(Seq<char>, Seq<char>), Seq<TriggerView>>,
    pub relations: Map<(Seq<char>, Seq<char>), RelationView>,
    pub document_count: nat,
    pub chunk_count: nat,
    pub relation_count: nat,
}

/// The start of such a run.
pub open spec fn begun(
    root: RootView,
    namespace: Seq<char>,
    prefix: Seq<char>,
    force: bool,
    home: Option<Seq<u8>>,
    digests: Map<(Seq<char>, Seq<char>), Seq<char>>,
) -> Progress {
    Progress {
        run: run_start(root, namespace, prefix, force, home),
        action: ActionView::ListPaths,
        digests,
        documents: Map::empty(),
        chunks: Map::empty(),
        triggers: Map::empty(),
        relations: Map::empty(),
        document_count: 0,
        chunk_count: 0,
        relation_count: 0,
    }
}

/// Whether an action stores something.
pub open spec fn stores(action: ActionView) -> bool {
    action is StoreDocument || action is StoreChunks || action is StoreTriggers
        || action is StoreRelation
}

/// Whether an action ends a run.
pub open spec fn ends(action: ActionView) -> bool {
    action is Finish || action is Fail || action is Misplaced
}

/// What comes of an action: paths and contents are those of the wiki, digests are
/// those that are stored, and what is to be stored is.
pub open spec fn reply(p: Progress, wiki: WikiView, at: Timestamp) -> EventView {
    match p.action {
        ActionView::ListPaths => EventView::Listed(Ok(wiki.listing)),
        ActionView::ReadContent(path) => EventView::ContentRead(Ok((wiki.contents)(path))),
        ActionView::LookUpHash(namespace, path) => EventView::HashFound(
            Ok(
                if p.digests.dom().contains((namespace, path)) {
                    Some(p.digests[(namespace, path)])
                } else {
                    None
                },
            ),
        ),
        ActionView::ReadClock => EventView::Clock(at),
        _ => EventView::Stored(Ok(())),
    }
}

/// A run whose action has been performed, at this time.
pub open spec fn perform(p: Progress, wiki: WikiView, at: Timestamp) -> Progress {
    if ends(p.action) {
        p
    } else {
        let (run, action) = step(p.run, reply(p, wiki, at));
        let q = Progress { run, action, ..p };
        match p.action {
            ActionView::StoreDocument(d) => Progress {
                digests: p.digests.insert((d.namespace, d.path), d.content_sha256),
                documents: p.documents.insert((d.namespace, d.path), d),
                document_count: p.document_count + 1,
                ..q
            },
            ActionView::StoreChunks(namespace, path, chunks) => Progress {
                chunks: p.chunks.insert((namespace, path), chunks),
                chunk_count: p.chunk_count + chunks.len(),
                ..q
            },
            ActionView::StoreTriggers(namespace, path, triggers) => Progress {
                triggers: p.triggers.insert((namespace, path), triggers),
                ..q
            },
            ActionView::StoreRelation(r) => Progress {
                relations: p.relations.insert((r.namespace, r.path), r),
                relation_count: p.relation_count + 1,
                ..q
            },
            _ => q,
        }
    }
}

/// A run whose actions have been performed one after another, at these times.
pub open spec fn perform_all(p: Progress, wiki: WikiView, times: Seq<Timestamp>) -> Progress
    decreases times.len(),
{
    if times.len() == 0 {
        p
    } else {
        perform(perform_all(p, wiki, times.drop_last()), wiki, times.last())
    }
}

/// So many actions are enough for a run over the paths of a wiki.
pub open spec fn enough(wiki: WikiView) -> nat {
    10 * wiki.listing.len() + 10
}

/// Whether the digest of a document's content is the one that is stored for it.
spec fn up_to_date(p: Progress, wiki: WikiView, path: Seq<char>) -> bool {
    p.digests.contains_pair(
        (p.run.document.namespace, path),
        text_digest((wiki.contents)(path)),
    )
}

/// Whether the digest of the document at hand has yet to be stored.
spec fn pending(stage: Stage) -> nat {
    match stage {
        Stage::Reading | Stage::LookingUp | Stage::Timing | Stage::Document => 1,
        _ => 0,
    }
}

/// How many actions a run can still ask for, at most.
spec fn actions_left(run: RunView, wiki: WikiView) -> int {
    match run.stage {
        Stage::Listing => enough(wiki) as int,
        Stage::Reading => 10 * (run.paths.len() - run.next) + 9,
        Stage::LookingUp => 10 * (run.paths.len() - run.next) + 8,
        Stage::Timing => 10 * (run.paths.len() - run.next) + 7,
        Stage::Document => 10 * (run.paths.len() - run.next) + 6,
        Stage::Chunks => 10 * (run.paths.len() - run.next) + 5,
        Stage::Triggers => 10 * (run.paths.len() - run.next) + 4,
        Stage::Relation => 10 * (run.paths.len() - run.next) + 3,
        Stage::Finished | Stage::Failed => 0,
    }
}

/// What holds of a run over a wiki whose documents can all be read: it asks for
/// what it waits for, and the digest of each document that it is done with is the
/// one that is stored.
spec fn in_step(p: Progress, wiki: WikiView) -> bool {
    let run = p.run;
    let doc = run.document;
    let read = doc.content == (wiki.contents)(doc.path);
    &&& run.next <= run.paths.len()
    &&& run.report.scanned == taken(run)
    &&& run.stage == Stage::Listing ==> run.next == 0 && run.report.scanned == 0
    &&& run.stage != Stage::Listing ==> run.paths == listed_paths(run.root, wiki.listing)
    &&& busy(run.stage) == 1 ==> 0 < run.next && doc.path == run.paths[run.next - 1]
    &&& match run.stage {
        Stage::Listing => p.action == ActionView::ListPaths,
        Stage::Reading => p.action == ActionView::ReadContent(doc.path),
        Stage::LookingUp => p.action == ActionView::LookUpHash(doc.namespace, doc.path) && read,
        Stage::Timing => p.action == ActionView::ReadClock && read,
        Stage::Document => p.action == ActionView::StoreDocument(document_of(doc)) && read,
        Stage::Chunks => p.action is StoreChunks && read,
        Stage::Triggers => p.action is StoreTriggers && read,
        Stage::Relation => p.action is StoreRelation && read,
        Stage::Finished => run.next == run.paths.len() && p.action == ActionView::Finish(
            run.report,
        ),
        Stage::Failed => false,
    }
    &&& forall|i: int|
        0 <= i < run.next - pending(run.stage) && takes_up(run, #[trigger] run.paths[i])
            ==> up_to_date(p, wiki, run.paths[i])
}

proof fn lemma_listing_len(root: RootView, listing: Seq<Seq<char>>)
    ensures
        listed_paths(root, listing).len() == listing.len(),
{
    law_in_order_sorts(listing);
    broadcast use vstd::seq_lib::group_to_multiset_ensures;

    assert(in_order(listing).to_multiset().len() == in_order(listing).len());
}

#[verifier::rlimit(30)]
proof fn lemma_perform(p: Progress, wiki: WikiView, at: Timestamp)
    requires
        in_step(p, wiki),
        !ends(p.action),
    ensures
        in_step(perform(p, wiki, at), wiki),
        actions_left(perform(p, wiki, at).run, wiki) < actions_left(p.run, wiki),
        ({
            let out = perform(p, wiki, at).run;
            &&& out.root == p.run.root && out.home == p.run.home && out.prefix == p.run.prefix
            &&& out.force == p.run.force
            &&& out.document.namespace == p.run.document.namespace
        }),
{
    let run = p.run;
    let out = perform(p, wiki, at);
    lemma_listing_len(run.root, wiki.listing);
    match run.stage {
        Stage::Listing => {
            let listed = RunView { paths: listed_paths(run.root, wiki.listing), ..run };
            assert(listed.paths.take(0) =~= Seq::<Seq<char>>::empty());
            lemma_go_on_exact(listed);
        },
        Stage::LookingUp => {
            lemma_go_on_exact(
                RunView {
                    report: ReportView { skipped: run.report.skipped + 1, ..run.report },
                    ..run
                },
            );
        },
        Stage::Triggers => {
            lemma_go_on_exact(with_indexed(run));
            match root_card(run.root, run.document.path, run.document.content, run.home) {
                Err(e) => {
                    lemma_go_on_exact(with_indexed(with_error(run, e)));
                },
                _ => {},
            }
        },
        Stage::Relation => {
            lemma_go_on_exact(
                with_indexed(
                    RunView {
                        report: ReportView { relations: run.report.relations + 1, ..run.report },
                        ..run
                    },
                ),
            );
        },
        _ => {},
    }
    assert forall|i: int|
        0 <= i < out.run.next - pending(out.run.stage) && takes_up(
            out.run,
            #[trigger] out.run.paths[i],
        ) implies up_to_date(out, wiki, out.run.paths[i]) by {
        if run.stage != Stage::Listing {
            assert(takes_up(run, run.paths[i]));
            if i < run.next - pending(run.stage) {
                assert(up_to_date(p, wiki, run.paths[i]));
            }
        }
    }
}

proof fn lemma_perform_all(
    root: RootView,
    namespace: Seq<char>,
    prefix: Seq<char>,
    force: bool,
    home: Option<Seq<u8>>,
    digests: Map<(Seq<char>, Seq<char>), Seq<char>>,
    wiki: WikiView,
    times: Seq<Timestamp>,
)
    ensures
        ({
            let p = perform_all(
                begun(root, namespace, prefix, force, home, digests),
                wiki,
                times,
            );
            &&& in_step(p, wiki)
            &&& p.run.root == root && p.run.home == home && p.run.prefix == prefix
            &&& p.run.force == force
            &&& p.run.document.namespace == namespace
            &&& ends(p.action) || actions_left(p.run, wiki) + times.len() <= enough(wiki)
        }),
    decreases times.len(),
{
    let start = begun(root, namespace, prefix, force, home, digests);
    if times.len() == 0 {
        assert(start.run.paths.take(0) =~= Seq::<Seq<char>>::empty());
    } else {
        let front = times.drop_last();
        lemma_perform_all(root, namespace, prefix, force, home, digests, wiki, front);
        let p = perform_all(start, wiki, front);
        if !ends(p.action) {
            lemma_perform(p, wiki, times.last());
        }
    }
}

/// Whether the digest that is stored for a document is that of its content, for
/// every document of a wiki that a run takes up.
pub open spec fn all_up_to_date(
    root: RootView,
    namespace: Seq<char>,
    prefix: Seq<char>,
    home: Option<Seq<u8>>,
    digests: Map<(Seq<char>, Seq<char>), Seq<char>>,
    wiki: WikiView,
) -> bool {
    let paths = listed_paths(root, wiki.listing);
    forall|i: int|
        0 <= i < paths.len() && root_indexes(root, #[trigger] paths[i], home) && starts_with(
            paths[i],
            strip_trailing(prefix, '/'),
        ) ==> digests.contains_pair(
            (namespace, paths[i]),
            text_digest((wiki.contents)(paths[i])),
        )
}

/// A run over a wiki whose documents can all be read, and whose records can all be
/// stored, finishes. It has scanned every listed path that it takes up, and the
/// digest of each of these documents is then the one that is stored for it.
pub proof fn law_runs_bring_the_index_up_to_date(
    root: RootView,
    namespace: Seq<char>,
    prefix: Seq<char>,
    force: bool,
    home: Option<Seq<u8>>,
    digests: Map<(Seq<char>, Seq<char>), Seq<char>>,
    wiki: WikiView,
    times: Seq<Timestamp>,
)
    requires
        times.len() >= enough(wiki),
    ensures
        ({
            let p = perform_all(
                begun(root, namespace, prefix, force, home, digests),
                wiki,
                times,
            );
            &&& p.action matches ActionView::Finish(r) && r.scanned == how_many(
                root,
                home,
                prefix,
                listed_paths(root, wiki.listing),
            )
            &&& all_up_to_date(root, namespace, prefix, home, p.digests, wiki)
        }),
{
    lemma_perform_all(root, namespace, prefix, force, home, digests, wiki, times);
    let p = perform_all(begun(root, namespace, prefix, force, home, digests), wiki, times);
    lemma_listing_len(p.run.root, wiki.listing);
    assert(p.run.stage == Stage::Finished);
    assert(p.run.paths.take(p.run.paths.len() as int) =~= p.run.paths);
    assert forall|i: int|
        0 <= i < p.run.paths.len() && root_indexes(root, #[trigger] p.run.paths[i], home)
            && starts_with(p.run.paths[i], strip_trailing(prefix, '/'))
        implies p.digests.contains_pair(
        (namespace, p.run.paths[i]),
        text_digest((wiki.contents)(p.run.paths[i])),
    ) by {
        assert(takes_up(p.run, p.run.paths[i]));
        assert(up_to_date(p, wiki, p.run.paths[i]));
    }
}

/// What holds of a run that is not forced, where all digests are up to date: it
/// only reads, looks up and skips.
spec fn idle(p: Progress, digests: Map<(Seq<char>, Seq<char>), Seq<char>>) -> bool {
    let r = p.run.report;
    &&& p.digests == digests
    &&& p.run.stage == Stage::Listing || p.run.stage == Stage::Reading || p.run.stage
        == Stage::LookingUp || p.run.stage == Stage::Finished
    &&& r.indexed == 0 && r.chunks == 0 && r.relations == 0 && r.errors.len() == 0
    &&& r.scanned == r.skipped + busy(p.run.stage)
    &&& busy(p.run.stage) == 1 ==> takes_up(p.run, p.run.document.path)
}

proof fn lemma_idle(
    root: RootView,
    namespace: Seq<char>,
    prefix: Seq<char>,
    home: Option<Seq<u8>>,
    digests: Map<(Seq<char>, Seq<char>), Seq<char>>,
    wiki: WikiView,
    times: Seq<Timestamp>,
)
    requires
        all_up_to_date(root, namespace, prefix, home, digests, wiki),
    ensures
        idle(
            perform_all(begun(root, namespace, prefix, false, home, digests), wiki, times),
            digests,
        ),
    decreases times.len(),
{
    let start = begun(root, namespace, prefix, false, home, digests);
    if times.len() > 0 {
        let front = times.drop_last();
        lemma_idle(root, namespace, prefix, home, digests, wiki, front);
        lemma_perform_all(root, namespace, prefix, false, home, digests, wiki, front);
        let p = perform_all(start, wiki, front);
        let run = p.run;
        match run.stage {
            Stage::Listing => {
                let listed = RunView { paths: listed_paths(run.root, wiki.listing), ..run };
                assert(listed.paths.take(0) =~= Seq::<Seq<char>>::empty());
                lemma_go_on_exact(listed);
            },
            Stage::LookingUp => {
                assert(run.document.path == listed_paths(root, wiki.listing)[run.next - 1]);
                assert(digests.contains_pair(
                    (namespace, run.document.path),
                    text_digest(run.document.content),
                ));
                lemma_go_on_exact(
                    RunView {
                        report: ReportView { skipped: run.report.skipped + 1, ..run.report },
                        ..run
                    },
                );
            },
            _ => {},
        }
    }
}

/// A run that is not forced stores nothing where all digests are up to date.
proof fn lemma_nothing_stored(
    root: RootView,
    namespace: Seq<char>,
    prefix: Seq<char>,
    home: Option<Seq<u8>>,
    digests: Map<(Seq<char>, Seq<char>), Seq<char>>,
    wiki: WikiView,
    times: Seq<Timestamp>,
)
    requires
        all_up_to_date(root, namespace, prefix, home, digests, wiki),
    ensures
        ({
            let p = perform_all(
                begun(root, namespace, prefix, false, home, digests),
                wiki,
                times,
            );
            &&& p.digests == digests
            &&& !stores(p.action)
            &&& p.action matches ActionView::Finish(r) ==> {
                &&& r.skipped == r.scanned
                &&& r.indexed == 0
                &&& r.chunks == 0
                &&& r.relations == 0
                &&& r.errors == Seq::<Seq<char>>::empty()
            }
        }),
{
    lemma_idle(root, namespace, prefix, home, digests, wiki, times);
    lemma_perform_all(root, namespace, prefix, false, home, digests, wiki, times);
    let p = perform_all(begun(root, namespace, prefix, false, home, digests), wiki, times);
    assert(p.run.report.errors =~= Seq::<Seq<char>>::empty());
}

/// A wiki that has not changed is not indexed again. After a run over a wiki whose
/// documents can all be read, forced or not, a second one that is not forced
/// finishes too: it scans as many documents, skips all of them, and stores nothing
/// on its way.
pub proof fn law_second_runs_skip_everything(
    root: RootView,
    namespace: Seq<char>,
    prefix: Seq<char>,
    force: bool,
    home: Option<Seq<u8>>,
    digests: Map<(Seq<char>, Seq<char>), Seq<char>>,
    wiki: WikiView,
    first_times: Seq<Timestamp>,
    second_times: Seq<Timestamp>,
)
    requires
        first_times.len() >= enough(wiki),
        second_times.len() >= enough(wiki),
    ensures
        ({
            let first = perform_all(
                begun(root, namespace, prefix, force, home, digests),
                wiki,
                first_times,
            );
            let again = begun(root, namespace, prefix, false, home, first.digests);
            let second = perform_all(again, wiki, second_times);
            &&& first.action matches ActionView::Finish(r1) && {
                &&& second.action matches ActionView::Finish(r2) && {
                    &&& r2.scanned == r1.scanned
                    &&& r2.skipped == r2.scanned
                    &&& r2.indexed == 0
                    &&& r2.chunks == 0
                    &&& r2.relations == 0
                    &&& r2.errors == Seq::<Seq<char>>::empty()
                }
            }
            &&& second.digests == first.digests
            &&& forall|n: int|
                #![trigger second_times.take(n)]
                0 <= n <= second_times.len() ==> !stores(
                    perform_all(again, wiki, second_times.take(n)).action,
                )
        }),
{
    law_runs_bring_the_index_up_to_date(
        root,
        namespace,
        prefix,
        force,
        home,
        digests,
        wiki,
        first_times,
    );
    let first = perform_all(
        begun(root, namespace, prefix, force, home, digests),
        wiki,
        first_times,
    );
    let kept = first.digests;
    let again = begun(root, namespace, prefix, false, home, kept);
    law_runs_bring_the_index_up_to_date(
        root,
        namespace,
        prefix,
        false,
        home,
        kept,
        wiki,
        second_times,
    );
    lemma_nothing_stored(root, namespace, prefix, home, kept, wiki, second_times);
    assert forall|n: int|
        #![trigger second_times.take(n)]
        0 <= n <= second_times.len() implies !stores(
        perform_all(again, wiki, second_times.take(n)).action,
    ) by {
        lemma_nothing_stored(root, namespace, prefix, home, kept, wiki, second_times.take(n));
    }
}

/// A document of a wiki, as it is read at some time.
pub open spec fn read_at(
    wiki: WikiView,
    namespace: Seq<char>,
    path: Seq<char>,
    at: Timestamp,
) -> Reading {
    Reading { namespace, path, content: (wiki.contents)(path), at }
}

/// Whether all that is made of a document, as it is read at some time, is stored:
/// its record, its chunks, its keywords, and its fact exactly where it states one.
pub open spec fn stored_whole(
    p: Progress,
    wiki: WikiView,
    root: RootView,
    home: Option<Seq<u8>>,
    namespace: Seq<char>,
    path: Seq<char>,
    at: Timestamp,
) -> bool {
    let d = read_at(wiki, namespace, path, at);
    let k = (namespace, path);
    &&& p.documents.contains_pair(k, document_of(d))
    &&& p.chunks.contains_pair(k, chunk_records_of(d))
    &&& p.triggers.contains_pair(k, trigger_records_of(d))
    &&& match root_card(root, path, (wiki.contents)(path), home) {
        Ok(Some(card)) => p.relations.contains_pair(k, relation_record_of(d, card)),
        _ => !p.relations.dom().contains(k),
    }
}

/// Whether a document is to be indexed: by force, or because its digest is not the
/// one that was stored before.
pub open spec fn to_be_indexed(
    wiki: WikiView,
    force: bool,
    before: Map<(Seq<char>, Seq<char>), Seq<char>>,
    namespace: Seq<char>,
    path: Seq<char>,
) -> bool {
    force || !before.contains_pair((namespace, path), text_digest((wiki.contents)(path)))
}

/// Whether a document's record is stored and the rest of it is not yet.
spec fn storing(stage: Stage) -> bool {
    stage == Stage::Chunks || stage == Stage::Triggers || stage == Stage::Relation
}

spec fn due(p: Progress, wiki: WikiView, before: Map<(Seq<char>, Seq<char>), Seq<char>>, path: Seq<
    char,
>) -> bool {
    to_be_indexed(wiki, p.run.force, before, p.run.document.namespace, path)
}

spec fn whole(p: Progress, wiki: WikiView, path: Seq<char>) -> bool {
    exists|at: Timestamp|
        #[trigger] stored_whole(
            p,
            wiki,
            p.run.root,
            p.run.home,
            p.run.document.namespace,
            path,
            at,
        )
}

/// What is stored is stored of documents of the run that were to be indexed.
spec fn in_bounds(
    p: Progress,
    wiki: WikiView,
    before: Map<(Seq<char>, Seq<char>), Seq<char>>,
) -> bool {
    let ns = p.run.document.namespace;
    &&& forall|k: (Seq<char>, Seq<char>)| #[trigger]
        p.documents.dom().contains(k) ==> k.0 == ns && due(p, wiki, before, k.1)
            && p.digests.contains_pair(k, text_digest((wiki.contents)(k.1)))
    &&& forall|k: (Seq<char>, Seq<char>)| #[trigger]
        p.chunks.dom().contains(k) ==> p.documents.dom().contains(k)
    &&& forall|k: (Seq<char>, Seq<char>)| #[trigger]
        p.triggers.dom().contains(k) ==> p.documents.dom().contains(k)
    &&& forall|k: (Seq<char>, Seq<char>)| #[trigger]
        p.relations.dom().contains(k) ==> p.documents.dom().contains(k) && (root_card(
            p.run.root,
            k.1,
            (wiki.contents)(k.1),
            p.run.home,
        ) matches Ok(Some(_)))
    &&& forall|k: (Seq<char>, Seq<char>)| #[trigger] left_alone(p, before, k)
}

/// Whether the digest of a document is the one that was stored before, unless its
/// record has been stored since.
spec fn left_alone(
    p: Progress,
    before: Map<(Seq<char>, Seq<char>), Seq<char>>,
    k: (Seq<char>, Seq<char>),
) -> bool {
    p.documents.dom().contains(k) || (p.digests.dom().contains(k) == before.dom().contains(k)
        && p.digests[k] == before[k])
}

/// What has been stored of the document at hand, and what is to be stored next.
spec fn at_hand(p: Progress) -> bool {
    let doc = p.run.document;
    let k = (doc.namespace, doc.path);
    match p.run.stage {
        Stage::LookingUp => !p.run.force,
        Stage::Chunks => {
            &&& p.action == ActionView::StoreChunks(doc.namespace, doc.path, chunk_records_of(doc))
            &&& p.documents.contains_pair(k, document_of(doc))
        },
        Stage::Triggers => {
            &&& p.action == ActionView::StoreTriggers(
                doc.namespace,
                doc.path,
                trigger_records_of(doc),
            )
            &&& p.documents.contains_pair(k, document_of(doc))
            &&& p.chunks.contains_pair(k, chunk_records_of(doc))
        },
        Stage::Relation => {
            &&& root_card(p.run.root, doc.path, doc.content, p.run.home) matches Ok(Some(card))
                && p.action == ActionView::StoreRelation(relation_record_of(doc, card))
            &&& p.documents.contains_pair(k, document_of(doc))
            &&& p.chunks.contains_pair(k, chunk_records_of(doc))
            &&& p.triggers.contains_pair(k, trigger_records_of(doc))
        },
        _ => true,
    }
}

/// What holds of what a run has stored.
spec fn filed(
    p: Progress,
    wiki: WikiView,
    before: Map<(Seq<char>, Seq<char>), Seq<char>>,
) -> bool {
    let run = p.run;
    let doc = run.document;
    &&& in_bounds(p, wiki, before)
    &&& at_hand(p)
    &&& forall|path: Seq<char>| #[trigger]
        p.documents.dom().contains((doc.namespace, path)) && !(storing(run.stage) && path
            == doc.path) ==> whole(p, wiki, path)
    &&& (busy(run.stage) == 1 && run.stage != Stage::Reading && run.stage != Stage::LookingUp)
        ==> due(p, wiki, before, doc.path)
    &&& forall|i: int|
        0 <= i < run.next - pending(run.stage) && takes_up(run, #[trigger] run.paths[i]) && due(
            p,
            wiki,
            before,
            run.paths[i],
        ) ==> p.documents.dom().contains((doc.namespace, run.paths[i]))
    &&& run.report.indexed + (if storing(run.stage) {
        1int
    } else {
        0
    }) == p.document_count
    &&& run.report.chunks == if p.chunk_count <= usize::MAX {
        p.chunk_count
    } else {
        usize::MAX as nat
    }
    &&& run.report.relations == p.relation_count
}

/// A document whose record and chunks and keywords, and whose fact where it states
/// one, have just been stored, is stored whole; others are as they were.
proof fn lemma_whole_kept(p: Progress, q: Progress, wiki: WikiView, path: Seq<char>)
    requires
        whole(p, wiki, path),
        q.run.root == p.run.root,
        q.run.home == p.run.home,
        q.run.document.namespace == p.run.document.namespace,
        ({
            let k = (p.run.document.namespace, path);
            &&& q.documents.dom().contains(k) == p.documents.dom().contains(k) && q.documents[k]
                == p.documents[k]
            &&& q.chunks.dom().contains(k) == p.chunks.dom().contains(k) && q.chunks[k]
                == p.chunks[k]
            &&& q.triggers.dom().contains(k) == p.triggers.dom().contains(k) && q.triggers[k]
                == p.triggers[k]
            &&& q.relations.dom().contains(k) == p.relations.dom().contains(k) && q.relations[k]
                == p.relations[k]
        }),
    ensures
        whole(q, wiki, path),
{
    let at = choose|at: Timestamp|
        #[trigger] stored_whole(
            p,
            wiki,
            p.run.root,
            p.run.home,
            p.run.document.namespace,
            path,
            at,
        );
    assert(stored_whole(q, wiki, q.run.root, q.run.home, q.run.document.namespace, path, at));
}

#[verifier::rlimit(30)]
proof fn lemma_in_bounds(
    p: Progress,
    wiki: WikiView,
    at: Timestamp,
    before: Map<(Seq<char>, Seq<char>), Seq<char>>,
)
    requires
        in_step(p, wiki),
        filed(p, wiki, before),
        !ends(p.action),
    ensures
        in_bounds(perform(p, wiki, at), wiki, before),
{
    let run = p.run;
    let doc = run.document;
    let ns = doc.namespace;
    let q = perform(p, wiki, at);
    lemma_perform(p, wiki, at);
    assert(q.run.force == run.force && q.run.document.namespace == ns && q.run.root == run.root
        && q.run.home == run.home);
    assert forall|k: (Seq<char>, Seq<char>)| #[trigger]
        q.documents.dom().contains(k) implies k.0 == ns && due(q, wiki, before, k.1)
        && q.digests.contains_pair(k, text_digest((wiki.contents)(k.1))) by {
        if k == (ns, doc.path) && run.stage == Stage::Document {
            assert(due(p, wiki, before, doc.path));
        } else {
            assert(p.documents.dom().contains(k));
        }
    }
    assert forall|k: (Seq<char>, Seq<char>)| #[trigger]
        q.chunks.dom().contains(k) implies q.documents.dom().contains(k) by {
        if !p.chunks.dom().contains(k) {
            assert(p.documents.dom().contains((ns, doc.path)));
        }
    }
    assert forall|k: (Seq<char>, Seq<char>)| #[trigger]
        q.triggers.dom().contains(k) implies q.documents.dom().contains(k) by {
        if !p.triggers.dom().contains(k) {
            assert(p.documents.dom().contains((ns, doc.path)));
        }
    }
    assert forall|k: (Seq<char>, Seq<char>)| #[trigger]
        q.relations.dom().contains(k) implies q.documents.dom().contains(k) && (root_card(
        q.run.root,
        k.1,
        (wiki.contents)(k.1),
        q.run.home,
    ) matches Ok(Some(_))) by {
        if !p.relations.dom().contains(k) {
            assert(p.documents.dom().contains((ns, doc.path)));
        }
    }
    assert forall|k: (Seq<char>, Seq<char>)| #[trigger] left_alone(q, before, k) by {
        assert(left_alone(p, before, k));
    }
}

#[verifier::rlimit(60)]
#[verifier::spinoff_prover]
proof fn lemma_filed(
    p: Progress,
    wiki: WikiView,
    at: Timestamp,
    before: Map<(Seq<char>, Seq<char>), Seq<char>>,
)
    requires
        in_step(p, wiki),
        filed(p, wiki, before),
        !ends(p.action),
    ensures
        filed(perform(p, wiki, at), wiki, before),
{
    let run = p.run;
    let doc = run.document;
    let ns = doc.namespace;
    let q = perform(p, wiki, at);
    lemma_perform(p, wiki, at);
    match run.stage {
        Stage::Listing => {
            let listed = RunView { paths: listed_paths(run.root, wiki.listing), ..run };
            assert(listed.paths.take(0) =~= Seq::<Seq<char>>::empty());
            lemma_go_on_exact(listed);
        },
        Stage::LookingUp => {
            lemma_go_on_exact(
                RunView {
                    report: ReportView { skipped: run.report.skipped + 1, ..run.report },
                    ..run
                },
            );
        },
        Stage::Triggers => {
            lemma_go_on_exact(with_indexed(run));
            match root_card(run.root, doc.path, doc.content, run.home) {
                Err(e) => {
                    lemma_go_on_exact(with_indexed(with_error(run, e)));
                },
                _ => {},
            }
        },
        Stage::Relation => {
            lemma_go_on_exact(
                with_indexed(
                    RunView {
                        report: ReportView { relations: run.report.relations + 1, ..run.report },
                        ..run
                    },
                ),
            );
        },
        _ => {},
    }
    assert(busy(run.stage) == 1 && run.stage != Stage::Reading ==> doc == read_at(
        wiki,
        ns,
        doc.path,
        doc.at,
    ));
    lemma_in_bounds(p, wiki, at, before);
    assert(left_alone(p, before, (ns, doc.path)));
    assert forall|path: Seq<char>| #[trigger]
        q.documents.dom().contains((ns, path)) && !(storing(q.run.stage) && path
            == q.run.document.path) implies whole(q, wiki, path) by {
        if busy(run.stage) == 1 && storing(run.stage) && path == doc.path {
            assert(stored_whole(q, wiki, run.root, run.home, ns, path, doc.at));
        } else {
            assert(p.documents.dom().contains((ns, path)));
            lemma_whole_kept(p, q, wiki, path);
        }
    }
    assert forall|i: int|
        0 <= i < q.run.next - pending(q.run.stage) && takes_up(q.run, #[trigger] q.run.paths[i])
            && due(q, wiki, before, q.run.paths[i]) implies q.documents.dom().contains(
        (ns, q.run.paths[i]),
    ) by {
        if run.stage != Stage::Listing {
            assert(takes_up(run, run.paths[i]));
            assert(due(p, wiki, before, run.paths[i]));
            if i < run.next - pending(run.stage) {
                assert(p.documents.dom().contains((ns, run.paths[i])));
            } else {
                assert(i == run.next - 1);
                assert(run.paths[i] == doc.path);
                if run.stage == Stage::LookingUp {
                    assert(left_alone(p, before, (ns, doc.path)));
                }
            }
        }
    }
}

proof fn lemma_filed_all(
    root: RootView,
    namespace: Seq<char>,
    prefix: Seq<char>,
    force: bool,
    home: Option<Seq<u8>>,
    digests: Map<(Seq<char>, Seq<char>), Seq<char>>,
    wiki: WikiView,
    times: Seq<Timestamp>,
)
    ensures
        filed(
            perform_all(begun(root, namespace, prefix, force, home, digests), wiki, times),
            wiki,
            digests,
        ),
    decreases times.len(),
{
    let start = begun(root, namespace, prefix, force, home, digests);
    if times.len() > 0 {
        let front = times.drop_last();
        lemma_filed_all(root, namespace, prefix, force, home, digests, wiki, front);
        lemma_perform_all(root, namespace, prefix, force, home, digests, wiki, front);
        let p = perform_all(start, wiki, front);
        if !ends(p.action) {
            lemma_filed(p, wiki, times.last(), digests);
        }
    }
}

/// A run over a wiki whose documents can all be read brings the whole index up to
/// date. Of every document that it takes up and that is to be indexed, what it
/// stored last is all that is made of the document: its record, the records of its
/// chunks and of its keywords, and the record of its fact where it states one. It
/// stores nothing of other documents, and its report counts what it stored.
pub proof fn law_runs_store_whole_documents(
    root: RootView,
    namespace: Seq<char>,
    prefix: Seq<char>,
    force: bool,
    home: Option<Seq<u8>>,
    digests: Map<(Seq<char>, Seq<char>), Seq<char>>,
    wiki: WikiView,
    times: Seq<Timestamp>,
)
    requires
        times.len() >= enough(wiki),
    ensures
        ({
            let p = perform_all(
                begun(root, namespace, prefix, force, home, digests),
                wiki,
                times,
            );
            let paths = listed_paths(root, wiki.listing);
            &&& forall|i: int|
                0 <= i < paths.len() && root_indexes(root, #[trigger] paths[i], home)
                    && starts_with(paths[i], strip_trailing(prefix, '/')) && to_be_indexed(
                    wiki,
                    force,
                    digests,
                    namespace,
                    paths[i],
                ) ==> exists|at: Timestamp|
                    #[trigger] stored_whole(p, wiki, root, home, namespace, paths[i], at)
            &&& forall|k: (Seq<char>, Seq<char>)| #[trigger]
                p.documents.dom().contains(k) ==> k.0 == namespace && to_be_indexed(
                    wiki,
                    force,
                    digests,
                    namespace,
                    k.1,
                )
            &&& forall|k: (Seq<char>, Seq<char>)| #[trigger]
                p.chunks.dom().contains(k) ==> p.documents.dom().contains(k)
            &&& forall|k: (Seq<char>, Seq<char>)| #[trigger]
                p.triggers.dom().contains(k) ==> p.documents.dom().contains(k)
            &&& forall|k: (Seq<char>, Seq<char>)| #[trigger]
                p.relations.dom().contains(k) ==> p.documents.dom().contains(k)
            &&& p.action matches ActionView::Finish(r) && {
                &&& r.indexed == p.document_count
                &&& r.chunks == p.chunk_count || (p.chunk_count > usize::MAX && r.chunks
                    == usize::MAX)
                &&& r.relations == p.relation_count
                &&& r.scanned == r.indexed + r.skipped
                &&& r.namespace == namespace
                &&& r.wiki_root == root_shown(root)
                &&& r.wiki_root_kind == root_kind(root)
            }
        }),
{
    lemma_perform_all(root, namespace, prefix, force, home, digests, wiki, times);
    lemma_filed_all(root, namespace, prefix, force, home, digests, wiki, times);
    lemma_reports(root, namespace, prefix, force, home, digests, wiki, times);
    let p = perform_all(begun(root, namespace, prefix, force, home, digests), wiki, times);
    lemma_listing_len(p.run.root, wiki.listing);
    assert(p.run.stage == Stage::Finished);
    let paths = listed_paths(root, wiki.listing);
    assert forall|i: int|
        0 <= i < paths.len() && root_indexes(root, #[trigger] paths[i], home) && starts_with(
            paths[i],
            strip_trailing(prefix, '/'),
        ) && to_be_indexed(wiki, force, digests, namespace, paths[i]) implies exists|at: Timestamp|
        #[trigger] stored_whole(p, wiki, root, home, namespace, paths[i], at) by {
        assert(takes_up(p.run, p.run.paths[i]));
        assert(due(p, wiki, digests, p.run.paths[i]));
        assert(p.documents.dom().contains((namespace, p.run.paths[i])));
        assert(whole(p, wiki, paths[i]));
    }
    assert forall|k: (Seq<char>, Seq<char>)| #[trigger]
        p.documents.dom().contains(k) implies k.0 == namespace && to_be_indexed(
        wiki,
        force,
        digests,
        namespace,
        k.1,
    ) by {
        assert(due(p, wiki, digests, k.1));
    }
}

/// What a report says of the run itself, and that no document is lost in it.
spec fn accounted(p: Progress, namespace: Seq<char>, root: RootView) -> bool {
    let r = p.run.report;
    &&& r.namespace == namespace
    &&& r.wiki_root == root_shown(root)
    &&& r.wiki_root_kind == root_kind(root)
    &&& r.scanned == r.indexed + r.skipped + busy(p.run.stage)
}

proof fn lemma_accounted(
    p: Progress,
    wiki: WikiView,
    at: Timestamp,
    namespace: Seq<char>,
    root: RootView,
)
    requires
        p.run.next <= p.run.paths.len(),
        p.run.report.scanned == taken(p.run),
        p.run.stage == Stage::Listing ==> p.run.next == 0 && p.run.report.scanned == 0,
        accounted(p, namespace, root),
    ensures
        accounted(perform(p, wiki, at), namespace, root),
{
    let run = p.run;
    match run.stage {
        Stage::Listing => {
            let listed = RunView { paths: listed_paths(run.root, wiki.listing), ..run };
            assert(listed.paths.take(0) =~= Seq::<Seq<char>>::empty());
            lemma_go_on_exact(listed);
        },
        Stage::LookingUp => {
            lemma_go_on_exact(
                RunView {
                    report: ReportView { skipped: run.report.skipped + 1, ..run.report },
                    ..run
                },
            );
        },
        Stage::Triggers => {
            lemma_go_on_exact(with_indexed(run));
            match root_card(run.root, run.document.path, run.document.content, run.home) {
                Err(e) => {
                    lemma_go_on_exact(with_indexed(with_error(run, e)));
                },
                _ => {},
            }
        },
        Stage::Relation => {
            lemma_go_on_exact(
                with_indexed(
                    RunView {
                        report: ReportView { relations: run.report.relations + 1, ..run.report },
                        ..run
                    },
                ),
            );
        },
        _ => {},
    }
}

proof fn lemma_reports(
    root: RootView,
    namespace: Seq<char>,
    prefix: Seq<char>,
    force: bool,
    home: Option<Seq<u8>>,
    digests: Map<(Seq<char>, Seq<char>), Seq<char>>,
    wiki: WikiView,
    times: Seq<Timestamp>,
)
    ensures
        accounted(
            perform_all(begun(root, namespace, prefix, force, home, digests), wiki, times),
            namespace,
            root,
        ),
    decreases times.len(),
{
    let start = begun(root, namespace, prefix, force, home, digests);
    if times.len() > 0 {
        let front = times.drop_last();
        lemma_reports(root, namespace, prefix, force, home, digests, wiki, front);
        lemma_perform_all(root, namespace, prefix, force, home, digests, wiki, front);
        lemma_accounted(perform_all(start, wiki, front), wiki, times.last(), namespace, root);
    }
}

} // verus!

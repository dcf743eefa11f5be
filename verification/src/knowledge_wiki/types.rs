//! The records that are kept of a wiki's documents.

use vstd::prelude::*;

use crate::json::{Json, JsonView};
use crate::text::{opt_text, texts};
use crate::timestamp::Timestamp;

verus! {

/// What is kept of a document.
#[derive(Debug, PartialEq)]
pub struct WikiDocumentRecord {
    pub namespace: String,
    pub path: String,
    pub content_sha256: String,
    pub frontmatter_json: Json,
    pub doc_type: Option<String>,
    pub priority: i32,
    pub max_inject_chars: Option<i32>,
    pub indexed_at: Timestamp,
    pub status: String,
}

/// What a document record is.
pub struct DocumentView {
    pub namespace: Seq<char>,
    pub path: Seq<char>,
    pub content_sha256: Seq<char>,
    pub frontmatter_json: JsonView,
    pub doc_type: Option<Seq<char>>,
    pub priority: int,
    pub max_inject_chars: Option<int>,
    pub indexed_at: Timestamp,
    pub status: Seq<char>,
}

/// What an optional number is.
pub open spec fn opt_int(o: Option<i32>) -> Option<int> {
    match o {
        Some(v) => Some(v as int),
        None => None,
    }
}

impl View for WikiDocumentRecord {
    type V = DocumentView;

    open spec fn view(&self) -> DocumentView {
        DocumentView {
            namespace: self.namespace@,
            path: self.path@,
            content_sha256: self.content_sha256@,
            frontmatter_json: self.frontmatter_json@,
            doc_type: opt_text(self.doc_type),
            priority: self.priority as int,
            max_inject_chars: opt_int(self.max_inject_chars),
            indexed_at: self.indexed_at,
            status: self.status@,
        }
    }
}

/// What is kept of a chunk.
#[derive(Debug, PartialEq)]
pub struct WikiChunkRecord {
    pub chunk_id: String,
    pub namespace: String,
    pub path: String,
    pub chunk_index: i32,
    pub content_sha256: String,
    pub chunk_sha256: String,
    pub preview: String,
    pub token_count: i32,
    pub indexed_at: Timestamp,
}

/// What a chunk record is.
pub struct ChunkView {
    pub chunk_id: Seq<char>,
    pub namespace: Seq<char>,
    pub path: Seq<char>,
    pub chunk_index: i32,
    pub content_sha256: Seq<char>,
    pub chunk_sha256: Seq<char>,
    pub preview: Seq<char>,
    pub token_count: int,
    pub indexed_at: Timestamp,
}

impl View for WikiChunkRecord {
    type V = ChunkView;

    open spec fn view(&self) -> ChunkView {
        ChunkView {
            chunk_id: self.chunk_id@,
            namespace: self.namespace@,
            path: self.path@,
            chunk_index: self.chunk_index,
            content_sha256: self.content_sha256@,
            chunk_sha256: self.chunk_sha256@,
            preview: self.preview@,
            token_count: self.token_count as int,
            indexed_at: self.indexed_at,
        }
    }
}

/// What a list of chunk records is.
pub open spec fn chunk_record_views(s: Seq<WikiChunkRecord>) -> Seq<ChunkView> {
    s.map_values(|x: WikiChunkRecord| x@)
}

/// What is kept of a fact. The confidence is the text of the card's field.
#[derive(Debug, PartialEq)]
pub struct WikiRelationRecord {
    pub relation_id: String,
    pub namespace: String,
    pub path: String,
    pub subject: String,
    pub predicate: String,
    pub object: String,
    pub confidence: Option<String>,
    pub status: String,
    pub sources_json: Json,
    pub content_sha256: String,
    pub schema_version: Option<i32>,
    pub indexed_at: Timestamp,
}

/// What a relation record is.
pub struct RelationView {
    pub relation_id: Seq<char>,
    pub namespace: Seq<char>,
    pub path: Seq<char>,
    pub subject: Seq<char>,
    pub predicate: Seq<char>,
    pub object: Seq<char>,
    pub confidence: Option<Seq<char>>,
    pub status: Seq<char>,
    pub sources_json: JsonView,
    pub content_sha256: Seq<char>,
    pub schema_version: Option<i32>,
    pub indexed_at: Timestamp,
}

impl View for WikiRelationRecord {
    type V = RelationView;

    open spec fn view(&self) -> RelationView {
        RelationView {
            relation_id: self.relation_id@,
            namespace: self.namespace@,
            path: self.path@,
            subject: self.subject@,
            predicate: self.predicate@,
            object: self.object@,
            confidence: opt_text(self.confidence),
            status: self.status@,
            sources_json: self.sources_json@,
            content_sha256: self.content_sha256@,
            schema_version: self.schema_version,
            indexed_at: self.indexed_at,
        }
    }
}

/// A keyword that brings a document up.
#[derive(Debug, PartialEq)]
pub struct WikiTriggerRecord {
    pub namespace: String,
    pub path: String,
    pub keyword: String,
    pub priority: i32,
    pub status: String,
    pub indexed_at: Timestamp,
}

/// What a trigger record is.
pub struct TriggerView {
    pub namespace: Seq<char>,
    pub path: Seq<char>,
    pub keyword: Seq<char>,
    pub priority: int,
    pub status: Seq<char>,
    pub indexed_at: Timestamp,
}

impl View for WikiTriggerRecord {
    type V = TriggerView;

    open spec fn view(&self) -> TriggerView {
        TriggerView {
            namespace: self.namespace@,
            path: self.path@,
            keyword: self.keyword@,
            priority: self.priority as int,
            status: self.status@,
            indexed_at: self.indexed_at,
        }
    }
}

/// What a list of trigger records is.
pub open spec fn trigger_views(s: Seq<WikiTriggerRecord>) -> Seq<TriggerView> {
    s.map_values(|x: WikiTriggerRecord| x@)
}

/// One result of a search. The score is carried as the bits of a
/// single-precision number.
#[derive(Debug, PartialEq)]
pub struct WikiSearchHit {
    pub kind: String,
    pub path: String,
    pub chunk_id: Option<String>,
    pub relation_id: Option<String>,
    pub subject: Option<String>,
    pub predicate: Option<String>,
    pub object: Option<String>,
    pub status: Option<String>,
    pub doc_type: Option<String>,
    pub priority: i32,
    pub max_inject_chars: Option<i32>,
    pub preview: String,
    pub score_bits: u32,
    pub indexed_at: Timestamp,
}

/// What a search result is.
pub struct HitView {
    pub kind: Seq<char>,
    pub path: Seq<char>,
    pub chunk_id: Option<Seq<char>>,
    pub relation_id: Option<Seq<char>>,
    pub subject: Option<Seq<char>>,
    pub predicate: Option<Seq<char>>,
    pub object: Option<Seq<char>>,
    pub status: Option<Seq<char>>,
    pub doc_type: Option<Seq<char>>,
    pub priority: i32,
    pub max_inject_chars: Option<i32>,
    pub preview: Seq<char>,
    pub score_bits: u32,
    pub indexed_at: Timestamp,
}

impl View for WikiSearchHit {
    type V = HitView;

    open spec fn view(&self) -> HitView {
        HitView {
            kind: self.kind@,
            path: self.path@,
            chunk_id: opt_text(self.chunk_id),
            relation_id: opt_text(self.relation_id),
            subject: opt_text(self.subject),
            predicate: opt_text(self.predicate),
            object: opt_text(self.object),
            status: opt_text(self.status),
            doc_type: opt_text(self.doc_type),
            priority: self.priority,
            max_inject_chars: self.max_inject_chars,
            preview: self.preview@,
            score_bits: self.score_bits,
            indexed_at: self.indexed_at,
        }
    }
}

/// What a list of search results is.
pub open spec fn hit_views(s: Seq<WikiSearchHit>) -> Seq<HitView> {
    s.map_values(|x: WikiSearchHit| x@)
}

/// What a synchronization did.
#[derive(Clone, Debug, PartialEq)]
pub struct WikiSyncReport {
    pub namespace: String,
    pub wiki_root: String,
    pub wiki_root_kind: String,
    pub scanned: usize,
    pub indexed: usize,
    pub skipped: usize,
    pub chunks: usize,
    pub relations: usize,
    pub errors: Vec<String>,
}

/// What a report is.
pub struct ReportView {
    pub namespace: Seq<char>,
    pub wiki_root: Seq<char>,
    pub wiki_root_kind: Seq<char>,
    pub scanned: nat,
    pub indexed: nat,
    pub skipped: nat,
    pub chunks: nat,
    pub relations: nat,
    pub errors: Seq<Seq<char>>,
}

impl View for WikiSyncReport {
    type V = ReportView;

    open spec fn view(&self) -> ReportView {
        ReportView {
            namespace: self.namespace@,
            wiki_root: self.wiki_root@,
            wiki_root_kind: self.wiki_root_kind@,
            scanned: self.scanned as nat,
            indexed: self.indexed as nat,
            skipped: self.skipped as nat,
            chunks: self.chunks as nat,
            relations: self.relations as nat,
            errors: texts(self.errors@),
        }
    }
}

/// Records are seen as they are, field by field.
pub proof fn law_records_are_seen_as_they_are(
    d: WikiDocumentRecord,
    c: WikiChunkRecord,
    r: WikiRelationRecord,
    t: WikiTriggerRecord,
    h: WikiSearchHit,
)
    ensures
        d@.namespace == d.namespace@ && d@.path == d.path@ && d@.content_sha256
            == d.content_sha256@,
        d@.frontmatter_json == d.frontmatter_json@ && d@.priority == d.priority && d@.status
            == d.status@ && d@.indexed_at == d.indexed_at,
        d.doc_type matches Some(x) ==> d@.doc_type == Some(x@),
        d.doc_type is None ==> d@.doc_type is None,
        d.max_inject_chars matches Some(x) ==> d@.max_inject_chars == Some(x as int),
        d.max_inject_chars is None ==> d@.max_inject_chars is None,
        c@.chunk_id == c.chunk_id@ && c@.namespace == c.namespace@ && c@.path == c.path@,
        c@.chunk_index == c.chunk_index && c@.content_sha256 == c.content_sha256@,
        c@.chunk_sha256 == c.chunk_sha256@ && c@.preview == c.preview@ && c@.token_count
            == c.token_count && c@.indexed_at == c.indexed_at,
        r@.relation_id == r.relation_id@ && r@.namespace == r.namespace@ && r@.path == r.path@,
        r@.subject == r.subject@ && r@.predicate == r.predicate@ && r@.object == r.object@,
        r@.status == r.status@ && r@.sources_json == r.sources_json@ && r@.content_sha256
            == r.content_sha256@,
        r@.schema_version == r.schema_version && r@.indexed_at == r.indexed_at,
        r.confidence matches Some(x) ==> r@.confidence == Some(x@),
        r.confidence is None ==> r@.confidence is None,
        t@.namespace == t.namespace@ && t@.path == t.path@ && t@.keyword == t.keyword@,
        t@.priority == t.priority && t@.status == t.status@ && t@.indexed_at == t.indexed_at,
        h@.kind == h.kind@ && h@.path == h.path@ && h@.preview == h.preview@,
        h@.priority == h.priority && h@.max_inject_chars == h.max_inject_chars && h@.score_bits
            == h.score_bits && h@.indexed_at == h.indexed_at,
        h.subject matches Some(x) ==> h@.subject == Some(x@),
        h.predicate matches Some(x) ==> h@.predicate == Some(x@),
        h.object matches Some(x) ==> h@.object == Some(x@),
        h.chunk_id matches Some(x) ==> h@.chunk_id == Some(x@),
        h.relation_id matches Some(x) ==> h@.relation_id == Some(x@),
        h.status matches Some(x) ==> h@.status == Some(x@),
        h.doc_type matches Some(x) ==> h@.doc_type == Some(x@),
{
}

/// Lists of records are seen in their order, and a report as it is.
pub proof fn law_lists_are_seen_in_order(
    c: Seq<WikiChunkRecord>,
    t: Seq<WikiTriggerRecord>,
    h: Seq<WikiSearchHit>,
    r: WikiSyncReport,
    i: int,
)
    ensures
        chunk_record_views(c).len() == c.len(),
        0 <= i < c.len() ==> chunk_record_views(c)[i] == c[i]@,
        trigger_views(t).len() == t.len(),
        0 <= i < t.len() ==> trigger_views(t)[i] == t[i]@,
        hit_views(h).len() == h.len(),
        0 <= i < h.len() ==> hit_views(h)[i] == h[i]@,
        r@.namespace == r.namespace@ && r@.wiki_root == r.wiki_root@ && r@.wiki_root_kind
            == r.wiki_root_kind@,
        r@.scanned == r.scanned && r@.indexed == r.indexed && r@.skipped == r.skipped,
        r@.chunks == r.chunks && r@.relations == r.relations,
        r@.errors.len() == r.errors@.len(),
        0 <= i < r.errors@.len() ==> r@.errors[i] == r.errors@[i]@,
{
}

} // verus!

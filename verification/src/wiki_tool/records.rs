//! The records that a synchronization makes of a document.

use vstd::prelude::*;

use crate::digest::{content_sha256, text_digest};
use crate::json::{items_view, lemma_items_push, put, Json, JsonView};
use crate::knowledge_wiki::chunks::{chunk_markdown, chunk_texts, chunk_view, chunk_views};
use crate::knowledge_wiki::chunks::chunks_of;
use crate::knowledge_wiki::frontmatter::{document_fields, field_i32, field_text, field_words};
use crate::knowledge_wiki::frontmatter::{frontmatter_i32, frontmatter_scalar};
use crate::knowledge_wiki::frontmatter::{frontmatter_string_list, parse_frontmatter};
use crate::knowledge_wiki::relations::{card_at, relation_id, relation_id_of, source_views};
use crate::knowledge_wiki::relations::CardView;
use crate::knowledge_wiki::relations::{RelationCard, RelationSource, SourceView};
use crate::knowledge_wiki::types::{chunk_record_views, trigger_views, ChunkView, DocumentView};
use crate::knowledge_wiki::types::{RelationView, TriggerView, WikiChunkRecord};
use crate::knowledge_wiki::types::{WikiDocumentRecord, WikiRelationRecord, WikiTriggerRecord};
use crate::text::{chars_of, opt_text, string_of, texts};
use crate::timestamp::Timestamp;
use crate::wiki_tool::params::{approx_tokens, token_estimate};

verus! {

/// The size of a chunk, in bytes.
pub const DEFAULT_CHUNK_CHARS: usize = 6_000;

/// How many characters of a chunk its preview shows.
pub const PREVIEW_CHARS: usize = 500;

/// A document as it was read: where it stands, what it holds, and when it was
/// taken up.
pub struct Reading {
    pub namespace: Seq<char>,
    pub path: Seq<char>,
    pub content: Seq<char>,
    pub at: Timestamp,
}

impl Reading {
    /// The fields of the document's front matter.
    pub open spec fn fields(self) -> Map<Seq<char>, JsonView> {
        document_fields(self.content)
    }

    /// The digest of the document.
    pub open spec fn digest(self) -> Seq<char> {
        text_digest(self.content)
    }

    /// The document's status.
    pub open spec fn status(self) -> Seq<char> {
        match field_text(self.fields(), "status"@) {
            Some(s) => s,
            None => "approved"@,
        }
    }

    /// The document's priority.
    pub open spec fn priority(self) -> int {
        match field_i32(self.fields(), "priority"@) {
            Some(n) => n,
            None => 0,
        }
    }
}

/// The record of a document.
pub open spec fn document_of(d: Reading) -> DocumentView {
    DocumentView {
        namespace: d.namespace,
        path: d.path,
        content_sha256: d.digest(),
        frontmatter_json: JsonView::Object(d.fields()),
        doc_type: field_text(d.fields(), "type"@),
        priority: d.priority(),
        max_inject_chars: field_i32(d.fields(), "max_inject_chars"@),
        indexed_at: d.at,
        status: d.status(),
    }
}

/// The first characters of a chunk.
pub open spec fn preview_of(chunk: Seq<char>) -> Seq<char> {
    if chunk.len() <= PREVIEW_CHARS {
        chunk
    } else {
        chunk.take(PREVIEW_CHARS as int)
    }
}

/// The record of a chunk.
pub open spec fn chunk_record_of(d: Reading, c: (Seq<char>, i32, Seq<char>)) -> ChunkView {
    ChunkView {
        chunk_id: c.0,
        namespace: d.namespace,
        path: d.path,
        chunk_index: c.1,
        content_sha256: d.digest(),
        chunk_sha256: text_digest(c.2),
        preview: preview_of(c.2),
        token_count: token_estimate(c.2.len()) as int,
        indexed_at: d.at,
    }
}

/// The records of a document's chunks.
pub open spec fn chunk_records_of(d: Reading) -> Seq<ChunkView> {
    chunks_of(d.path, d.content, DEFAULT_CHUNK_CHARS).map_values(
        |c: (Seq<char>, i32, Seq<char>)| chunk_record_of(d, c),
    )
}

/// The record of a keyword.
pub open spec fn trigger_record_of(d: Reading, keyword: Seq<char>) -> TriggerView {
    TriggerView {
        namespace: d.namespace,
        path: d.path,
        keyword,
        priority: d.priority(),
        status: d.status(),
        indexed_at: d.at,
    }
}

/// The records of a document's keywords.
pub open spec fn trigger_records_of(d: Reading) -> Seq<TriggerView> {
    field_words(d.fields(), "keywords"@).map_values(|k: Seq<char>| trigger_record_of(d, k))
}

/// A source as a value: the fields that it has.
pub open spec fn source_value(s: SourceView) -> JsonView {
    let m = Map::empty().insert("path"@, JsonView::Text(s.path));
    let m = match s.chunk_id {
        Some(c) => m.insert("chunk_id"@, JsonView::Text(c)),
        None => m,
    };
    JsonView::Object(
        match s.quote {
            Some(q) => m.insert("quote"@, JsonView::Text(q)),
            None => m,
        },
    )
}

/// A list of sources as a value.
pub open spec fn sources_value(s: Seq<SourceView>) -> JsonView {
    JsonView::Array(s.map_values(|x: SourceView| source_value(x)))
}

/// The record of a fact.
pub open spec fn relation_record_of(d: Reading, card: CardView) -> RelationView {
    RelationView {
        relation_id: relation_id_of(card.subject, card.predicate, card.object),
        namespace: d.namespace,
        path: d.path,
        subject: card.subject,
        predicate: card.predicate,
        object: card.object,
        confidence: card.confidence,
        status: card.status,
        sources_json: sources_value(card.sources),
        content_sha256: d.digest(),
        schema_version: card.schema_version,
        indexed_at: d.at,
    }
}

/// A document as it was read.
#[derive(Debug, PartialEq)]
pub struct DocumentReading {
    pub namespace: String,
    pub path: String,
    pub content: String,
    pub at: Timestamp,
}

impl View for DocumentReading {
    type V = Reading;

    open spec fn view(&self) -> Reading {
        Reading {
            namespace: self.namespace@,
            path: self.path@,
            content: self.content@,
            at: self.at,
        }
    }
}

impl DocumentReading {
    /// The document's status.
    pub fn status(&self) -> (r: String)
        ensures
            r@ == self@.status(),
    {
        let (fm, _) = parse_frontmatter(self.content.as_str());
        match frontmatter_scalar(&fm, "status") {
            Some(s) => s,
            None => "approved".to_owned(),
        }
    }

    /// The document's priority.
    pub fn priority(&self) -> (r: i32)
        ensures
            r == self@.priority(),
    {
        let (fm, _) = parse_frontmatter(self.content.as_str());
        match frontmatter_i32(&fm, "priority") {
            Some(n) => n,
            None => 0,
        }
    }

    /// The record of the document.
    pub fn document_record(&self) -> (r: WikiDocumentRecord)
        ensures
            r@ == document_of(self@),
            r.namespace@ == self.namespace@,
            r.path@ == self.path@,
            r.content_sha256@ == text_digest(self.content@),
            r.indexed_at == self.at,
    {
        let status = self.status();
        let priority: i32 = self.priority();
        let (fm, _) = parse_frontmatter(self.content.as_str());
        let doc_type = frontmatter_scalar(&fm, "type");
        let max_inject_chars = frontmatter_i32(&fm, "max_inject_chars");
        WikiDocumentRecord {
            namespace: self.namespace.clone(),
            path: self.path.clone(),
            content_sha256: content_sha256(self.content.as_str()),
            frontmatter_json: Json::Object(fm.fields),
            doc_type,
            priority,
            max_inject_chars,
            indexed_at: self.at,
            status,
        }
    }

    /// The records of the document's chunks.
    pub fn chunk_records(&self) -> (r: Vec<WikiChunkRecord>)
        ensures
            chunk_record_views(r@) == chunk_records_of(self@),
    {
        let ghost cs = chunks_of(self.path@, self.content@, DEFAULT_CHUNK_CHARS);
        let hash = content_sha256(self.content.as_str());
        let chunks = chunk_markdown(self.path.as_str(), self.content.as_str(), DEFAULT_CHUNK_CHARS);
        let mut out: Vec<WikiChunkRecord> = Vec::new();
        assert(chunk_record_views(out@) =~= chunk_records_of(self@).take(0));
        for chunk in it: chunks
            invariant
                it.seq() == chunks@,
                chunk_views(chunks@) == cs,
                cs == chunks_of(self.path@, self.content@, DEFAULT_CHUNK_CHARS),
                hash@ == self@.digest(),
                chunk_record_views(out@) == chunk_records_of(self@).take(it.index() as int),
        {
            let ghost i = it.index() as int;
            let ghost before = out@;
            assert(chunk_views(chunks@)[i] == chunk_view(chunk));
            out.push(self.chunk_record(hash.as_str(), chunk));
            assert(chunk_records_of(self@)[i] == chunk_record_of(self@, cs[i]));
            assert(chunk_record_views(out@) =~= chunk_record_views(before).push(out@.last()@));
            assert(chunk_record_views(out@) =~= chunk_records_of(self@).take(i + 1));
        }
        assert(chunk_views(chunks@).len() == chunks@.len());
        assert(chunk_record_views(out@) =~= chunk_records_of(self@));
        out
    }

    fn chunk_record(&self, hash: &str, chunk: (String, i32, String)) -> (r: WikiChunkRecord)
        requires
            hash@ == self@.digest(),
        ensures
            r@ == chunk_record_of(self@, chunk_view(chunk)),
            r.chunk_id@ == chunk.0@,
            r.chunk_index == chunk.1,
            r.chunk_sha256@ == text_digest(chunk.2@),
            r.namespace@ == self.namespace@,
            r.path@ == self.path@,
    {
        let (chunk_id, chunk_index, text) = chunk;
        let mut chars = chars_of(text.as_str());
        if chars.len() > PREVIEW_CHARS {
            chars.truncate(PREVIEW_CHARS);
            assert(chars@ =~= text@.take(PREVIEW_CHARS as int));
        }
        WikiChunkRecord {
            chunk_id,
            namespace: self.namespace.clone(),
            path: self.path.clone(),
            chunk_index,
            content_sha256: hash.to_owned(),
            chunk_sha256: content_sha256(text.as_str()),
            preview: string_of(chars.as_slice()),
            token_count: approx_tokens(text.as_str()),
            indexed_at: self.at,
        }
    }

    /// The records of the document's keywords.
    pub fn trigger_records(&self) -> (r: Vec<WikiTriggerRecord>)
        ensures
            trigger_views(r@) == trigger_records_of(self@),
    {
        let (fm, _) = parse_frontmatter(self.content.as_str());
        let keywords = frontmatter_string_list(&fm, "keywords");
        let status = self.status();
        let priority: i32 = self.priority();
        let ghost ks = field_words(self@.fields(), "keywords"@);
        let mut out: Vec<WikiTriggerRecord> = Vec::new();
        assert(trigger_views(out@) =~= trigger_records_of(self@).take(0));
        for keyword in it: keywords
            invariant
                it.seq() == keywords@,
                texts(keywords@) == ks,
                ks == field_words(self@.fields(), "keywords"@),
                status@ == self@.status(),
                priority == self@.priority(),
                trigger_views(out@) == trigger_records_of(self@).take(it.index() as int),
        {
            let ghost i = it.index() as int;
            let ghost before = out@;
            assert(texts(keywords@)[i] == keyword@);
            out.push(
                WikiTriggerRecord {
                    namespace: self.namespace.clone(),
                    path: self.path.clone(),
                    keyword,
                    priority,
                    status: status.clone(),
                    indexed_at: self.at,
                },
            );
            assert(trigger_records_of(self@)[i] == trigger_record_of(self@, ks[i]));
            assert(out@.last()@ == trigger_record_of(self@, ks[i]));
            assert(trigger_views(out@) =~= trigger_views(before).push(out@.last()@));
            assert(trigger_views(out@) =~= trigger_records_of(self@).take(i + 1));
        }
        assert(texts(keywords@).len() == keywords@.len());
        assert(trigger_views(out@) =~= trigger_records_of(self@));
        out
    }

    /// The record of a fact that the document states.
    pub fn relation_record(&self, card: RelationCard) -> (r: WikiRelationRecord)
        ensures
            r@ == relation_record_of(self@, card@),
            r.subject@ == card.subject@,
            r.predicate@ == card.predicate@,
            r.object@ == card.object@,
            opt_text(r.confidence) == opt_text(card.confidence),
            r.status@ == card.status@,
            r.schema_version == card.schema_version,
            r.relation_id@ == relation_id_of(r.subject@, r.predicate@, r.object@),
            r.namespace@ == self.namespace@,
            r.path@ == self.path@,
            r.content_sha256@ == text_digest(self.content@),
            r.indexed_at == self.at,
    {
        let rel_id = relation_id(
            card.subject.as_str(),
            card.predicate.as_str(),
            card.object.as_str(),
        );
        WikiRelationRecord {
            relation_id: rel_id,
            namespace: self.namespace.clone(),
            path: self.path.clone(),
            subject: card.subject,
            predicate: card.predicate,
            object: card.object,
            confidence: card.confidence,
            status: card.status,
            sources_json: sources_to_json(&card.sources),
            content_sha256: content_sha256(self.content.as_str()),
            schema_version: card.schema_version,
            indexed_at: self.at,
        }
    }
}

/// A source as a value.
pub fn source_to_json(source: &RelationSource) -> (r: Json)
    ensures
        r@ == source_value(source@),
{
    let mut out: Vec<(String, Json)> = Vec::new();
    put(&mut out, "path", Json::text(source.path.as_str()));
    if let Some(c) = &source.chunk_id {
        put(&mut out, "chunk_id", Json::text(c.as_str()));
    }
    if let Some(q) = &source.quote {
        put(&mut out, "quote", Json::text(q.as_str()));
    }
    Json::Object(out)
}

/// A list of sources as a value.
pub fn sources_to_json(sources: &Vec<RelationSource>) -> (r: Json)
    ensures
        r@ == sources_value(source_views(sources@)),
{
    let ghost all = source_views(sources@).map_values(|x: SourceView| source_value(x));
    let mut out: Vec<Json> = Vec::new();
    let mut i: usize = 0;
    assert(items_view(out@) =~= all.take(0));
    while i < sources.len()
        invariant
            i <= sources@.len(),
            all == source_views(sources@).map_values(|x: SourceView| source_value(x)),
            items_view(out@) == all.take(i as int),
        decreases sources@.len() - i,
    {
        let v = source_to_json(&sources[i]);
        proof {
            lemma_items_push(out@, v);
            assert(all[i as int] == v@);
            assert(all.take(i as int).push(v@) =~= all.take(i + 1));
        }
        out.push(v);
        i += 1;
    }
    assert(all.take(all.len() as int) =~= all);
    Json::Array(out)
}

/// The record of a fact carries the card's own fields, each under its name, and the
/// identifier of the fact that it states.
pub proof fn law_relation_records_state_the_card(d: Reading, card: CardView)
    ensures
        ({
            let r = relation_record_of(d, card);
            &&& r.subject == card.subject
            &&& r.predicate == card.predicate
            &&& r.object == card.object
            &&& r.confidence == card.confidence
            &&& r.status == card.status
            &&& r.schema_version == card.schema_version
            &&& r.relation_id == relation_id_of(r.subject, r.predicate, r.object)
            &&& r.namespace == d.namespace
            &&& r.path == d.path
            &&& r.content_sha256 == text_digest(d.content)
            &&& r.indexed_at == d.at
        }),
{
}

/// The fact that is stored for a document is the one that its front matter states:
/// its subject is the text under `subject`, and so on. A fact without a status of
/// its own is proposed.
pub proof fn law_documents_state_their_facts(d: Reading, root: Seq<char>)
    requires
        card_at(d.path, d.content, root) matches Ok(Some(_)),
    ensures
        ({
            let card = card_at(d.path, d.content, root)->Ok_0->0;
            let r = relation_record_of(d, card);
            let m = document_fields(d.content);
            &&& Some(r.subject) == field_text(m, "subject"@)
            &&& Some(r.predicate) == field_text(m, "predicate"@)
            &&& Some(r.object) == field_text(m, "object"@)
            &&& r.confidence == field_text(m, "confidence"@)
            &&& field_text(m, "status"@) matches Some(t) ==> r.status == t
            &&& field_text(m, "status"@) is None ==> r.status == "proposed"@
            &&& field_i32(m, "schema_version"@) matches Some(v) ==> r.schema_version == Some(
                v as i32,
            )
            &&& field_i32(m, "schema_version"@) is None ==> r.schema_version is None
        }),
{
}

/// The record of a document carries its front matter, and its type, status,
/// priority and bound on what is injected as the front matter gives them. A document
/// without a status is approved, and one without a priority has the priority zero.
pub proof fn law_document_records_carry_the_front_matter(d: Reading)
    ensures
        ({
            let r = document_of(d);
            let m = document_fields(d.content);
            &&& r.frontmatter_json == JsonView::Object(m)
            &&& r.doc_type == field_text(m, "type"@)
            &&& r.max_inject_chars == field_i32(m, "max_inject_chars"@)
            &&& field_text(m, "status"@) matches Some(t) ==> r.status == t
            &&& field_text(m, "status"@) is None ==> r.status == "approved"@
            &&& field_i32(m, "priority"@) matches Some(n) ==> r.priority == n
            &&& field_i32(m, "priority"@) is None ==> r.priority == 0
            &&& r.content_sha256 == text_digest(d.content)
            &&& r.namespace == d.namespace
            &&& r.path == d.path
            &&& r.indexed_at == d.at
        }),
{
}

/// A document has one record for each of its chunks, in their order: with the
/// chunk's identifier and number, the digest of its text, the first five hundred
/// characters of it, and a token for every four characters begun.
pub proof fn law_chunk_records_show_the_chunks(d: Reading, k: int)
    requires
        0 <= k < chunk_texts(d.content, 6000).len(),
        k <= i32::MAX,
    ensures
        chunk_records_of(d).len() == chunk_texts(d.content, 6000).len(),
        ({
            let r = chunk_records_of(d)[k];
            let t = chunk_texts(d.content, 6000)[k];
            &&& r.chunk_id == chunks_of(d.path, d.content, 6000)[k].0
            &&& r.chunk_index == k
            &&& r.chunk_sha256 == text_digest(t)
            &&& r.content_sha256 == text_digest(d.content)
            &&& t.len() <= 500 ==> r.preview == t
            &&& t.len() > 500 ==> r.preview.len() == 500 && r.preview == t.subrange(0, 500)
            &&& t.len() <= 1_000_000_000 ==> 4 * r.token_count - 4 < t.len() <= 4 * r.token_count
            &&& r.namespace == d.namespace
            &&& r.path == d.path
            &&& r.indexed_at == d.at
        }),
{
    let t = chunk_texts(d.content, 6000)[k];
    if t.len() > 500 {
        assert(t.take(500) =~= t.subrange(0, 500));
    }
}

/// A document has one record for each of its keywords, in their order, with the
/// document's priority and status.
pub proof fn law_keyword_records_carry_the_keywords(d: Reading, k: int)
    requires
        0 <= k < field_words(document_fields(d.content), "keywords"@).len(),
    ensures
        trigger_records_of(d).len() == field_words(document_fields(d.content), "keywords"@).len(),
        ({
            let r = trigger_records_of(d)[k];
            &&& r.keyword == field_words(document_fields(d.content), "keywords"@)[k]
            &&& r.priority == document_of(d).priority
            &&& r.status == document_of(d).status
            &&& r.namespace == d.namespace
            &&& r.path == d.path
            &&& r.indexed_at == d.at
        }),
{
}

/// A source is written with its path and, where it has them, with its chunk and its
/// quote; a list of sources in its order.
pub proof fn law_sources_are_written(s: Seq<SourceView>, i: int)
    requires
        0 <= i < s.len(),
    ensures
        sources_value(s) matches JsonView::Array(items) && {
            &&& items.len() == s.len()
            &&& items[i].str_at("path"@) == Some(s[i].path)
            &&& items[i].str_at("chunk_id"@) == s[i].chunk_id
            &&& items[i].str_at("quote"@) == s[i].quote
        },
{
    lemma_source_keys();
}

proof fn lemma_source_keys()
    ensures
        "path"@ != "chunk_id"@,
        "path"@ != "quote"@,
        "chunk_id"@ != "quote"@,
{
    reveal_strlit("path");
    reveal_strlit("chunk_id");
    reveal_strlit("quote");
    assert("chunk_id"@.len() == 8);
    assert("path"@.len() == 4);
    assert("quote"@.len() == 5);
}

/// A document is read as it is given.
pub proof fn law_readings_are_seen_as_they_are(d: DocumentReading)
    ensures
        d@.namespace == d.namespace@,
        d@.path == d.path@,
        d@.content == d.content@,
        d@.at == d.at,
{
}

} // verus!

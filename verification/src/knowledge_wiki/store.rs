//! What the index is asked, and how its rows become results.

use vstd::prelude::*;

use crate::json::{int_number, put, Json, JsonView};
use crate::knowledge_wiki::types::{HitView, WikiSearchHit};
use crate::text::{concat3, opt_text};
use crate::timestamp::Timestamp;

verus! {

/// The pattern that finds a text anywhere.
pub open spec fn anywhere(query: Seq<char>) -> Seq<char> {
    "%"@ + query + "%"@
}

/// The pattern that finds a text anywhere.
pub fn like_pattern(query: &str) -> (r: String)
    ensures
        r@ == anywhere(query@),
{
    concat3("%", query, "%")
}

/// How many rows are asked for: never more than a hundred.
pub fn row_limit(limit: usize) -> (r: i64)
    ensures
        r == if limit <= 100 {
            limit as int
        } else {
            100
        },
{
    if limit <= 100 {
        limit as i64
    } else {
        100
    }
}

/// A row of a search. A number that the index does not have is `None`.
#[derive(Debug, PartialEq)]
pub struct SearchRow {
    pub kind: String,
    pub path: String,
    pub chunk_id: Option<String>,
    pub relation_id: Option<String>,
    pub subject: Option<String>,
    pub predicate: Option<String>,
    pub object: Option<String>,
    pub status: Option<String>,
    pub doc_type: Option<String>,
    pub priority: Option<i64>,
    pub max_inject_chars: Option<i64>,
    pub preview: String,
    pub score_bits: u32,
    pub indexed_at: Timestamp,
}

/// The lower half of a number.
pub open spec fn narrow(n: i64) -> i32 {
    n as i32
}

/// The result that a row is: a priority that is missing is zero.
pub open spec fn hit_of(row: SearchRow) -> HitView {
    HitView {
        kind: row.kind@,
        path: row.path@,
        chunk_id: opt_text(row.chunk_id),
        relation_id: opt_text(row.relation_id),
        subject: opt_text(row.subject),
        predicate: opt_text(row.predicate),
        object: opt_text(row.object),
        status: opt_text(row.status),
        doc_type: opt_text(row.doc_type),
        priority: match row.priority {
            Some(n) => narrow(n),
            None => 0,
        },
        max_inject_chars: match row.max_inject_chars {
            Some(n) => Some(narrow(n)),
            None => None,
        },
        preview: row.preview@,
        score_bits: row.score_bits,
        indexed_at: row.indexed_at,
    }
}

/// The result that a row is.
pub fn hit_from_row(row: SearchRow) -> (r: WikiSearchHit)
    ensures
        r@ == hit_of(row),
{
    WikiSearchHit {
        kind: row.kind,
        path: row.path,
        chunk_id: row.chunk_id,
        relation_id: row.relation_id,
        subject: row.subject,
        predicate: row.predicate,
        object: row.object,
        status: row.status,
        doc_type: row.doc_type,
        priority: match row.priority {
            Some(n) => #[verifier::truncate] (n as i32),
            None => 0,
        },
        max_inject_chars: match row.max_inject_chars {
            Some(n) => Some(#[verifier::truncate] (n as i32)),
            None => None,
        },
        preview: row.preview,
        score_bits: row.score_bits,
        indexed_at: row.indexed_at,
    }
}

/// How many records the index has of each kind.
pub fn status_counts(documents: i64, chunks: i64, relations: i64, triggers: i64) -> (r: Json)
    ensures
        r@ == JsonView::Object(
            Map::empty().insert(
                "documents"@,
                JsonView::Number(int_number(documents as int)),
            ).insert("chunks"@, JsonView::Number(int_number(chunks as int))).insert(
                "relations"@,
                JsonView::Number(int_number(relations as int)),
            ).insert("triggers"@, JsonView::Number(int_number(triggers as int))),
        ),
{
    let mut out: Vec<(String, Json)> = Vec::new();
    put(&mut out, "documents", Json::from_i64(documents));
    put(&mut out, "chunks", Json::from_i64(chunks));
    put(&mut out, "relations", Json::from_i64(relations));
    put(&mut out, "triggers", Json::from_i64(triggers));
    Json::Object(out)
}

/// A search looks for its query anywhere, and a row that it finds is a result with
/// the same fields.
pub proof fn law_rows_are_results(row: SearchRow, q: Seq<char>)
    ensures
        anywhere(q) == "%"@ + q + "%"@,
        ({
            let h = hit_of(row);
            &&& h.kind == row.kind@
            &&& h.path == row.path@
            &&& h.chunk_id == opt_text(row.chunk_id)
            &&& h.relation_id == opt_text(row.relation_id)
            &&& h.subject == opt_text(row.subject)
            &&& h.predicate == opt_text(row.predicate)
            &&& h.object == opt_text(row.object)
            &&& h.status == opt_text(row.status)
            &&& h.doc_type == opt_text(row.doc_type)
            &&& h.preview == row.preview@
            &&& h.score_bits == row.score_bits
            &&& h.indexed_at == row.indexed_at
            &&& row.priority is None ==> h.priority == 0
            &&& row.priority matches Some(n) ==> i32::MIN <= n <= i32::MAX ==> h.priority == n
            &&& row.max_inject_chars is None ==> h.max_inject_chars is None
            &&& row.max_inject_chars matches Some(n) ==> i32::MIN <= n <= i32::MAX
                ==> h.max_inject_chars == Some(n as i32)
        }),
{
}

} // verus!

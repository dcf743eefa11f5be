//! Relation cards: documents that state one fact as subject, predicate and object.

use vstd::prelude::*;

use crate::digest::{is_short_id, lowercase, make_id, short_id, to_lower};
use crate::json::{entry, items_view, lemma_items_view, Json, JsonView};
use crate::knowledge_wiki::frontmatter::{document_fields, field_i32, field_text};
use crate::knowledge_wiki::frontmatter::{frontmatter_i32, frontmatter_scalar, parse_frontmatter};
use crate::knowledge_wiki::frontmatter::FrontMatter;
use crate::knowledge_wiki::paths::{normal_chars, normal_path, normal_root, normalize_wiki_root};
use crate::knowledge_wiki::paths::{under_dir, WIKI_ROOT};
use crate::text::{chars_of, concat3, is_blank, opt_text, push_text, starts_with, string_of, trim, trimmed};

verus! {

/// Where a fact was taken from.
#[derive(Clone, Debug, PartialEq)]
pub struct RelationSource {
    pub path: String,
    pub chunk_id: Option<String>,
    pub quote: Option<String>,
}

/// What a source is.
pub struct SourceView {
    pub path: Seq<char>,
    pub chunk_id: Option<Seq<char>>,
    pub quote: Option<Seq<char>>,
}

impl View for RelationSource {
    type V = SourceView;

    open spec fn view(&self) -> SourceView {
        SourceView {
            path: self.path@,
            chunk_id: opt_text(self.chunk_id),
            quote: opt_text(self.quote),
        }
    }
}

/// What a list of sources is.
pub open spec fn source_views(s: Seq<RelationSource>) -> Seq<SourceView> {
    s.map_values(|x: RelationSource| x@)
}

/// A fact that a document states.
#[derive(Clone, Debug, PartialEq)]
pub struct RelationCard {
    pub subject: String,
    pub predicate: String,
    pub object: String,
    /// The text of the `confidence` field. It stands for a number, one half
    /// where there is none, and none below zero or above one counts.
    pub confidence: Option<String>,
    pub status: String,
    pub sources: Vec<RelationSource>,
    pub schema_version: Option<i32>,
}

/// What a card is.
pub struct CardView {
    pub subject: Seq<char>,
    pub predicate: Seq<char>,
    pub object: Seq<char>,
    pub confidence: Option<Seq<char>>,
    pub status: Seq<char>,
    pub sources: Seq<SourceView>,
    pub schema_version: Option<i32>,
}

impl View for RelationCard {
    type V = CardView;

    open spec fn view(&self) -> CardView {
        CardView {
            subject: self.subject@,
            predicate: self.predicate@,
            object: self.object@,
            confidence: opt_text(self.confidence),
            status: self.status@,
            sources: source_views(self.sources@),
            schema_version: self.schema_version,
        }
    }
}

/// The source that a value describes: an object with a text under `path`.
pub open spec fn source_of(v: JsonView) -> Option<SourceView> {
    match v.str_at("path"@) {
        Some(path) => Some(
            SourceView {
                path,
                chunk_id: v.str_at("chunk_id"@),
                quote: v.str_at("quote"@),
            },
        ),
        None => None,
    }
}

/// The sources that the values of a list describe.
pub open spec fn sources_among(s: Seq<JsonView>) -> Seq<SourceView>
    decreases s.len(),
{
    if s.len() == 0 {
        seq![]
    } else {
        match source_of(s.last()) {
            Some(x) => sources_among(s.drop_last()).push(x),
            None => sources_among(s.drop_last()),
        }
    }
}

/// The sources that a document's fields name.
pub open spec fn sources_of(m: Map<Seq<char>, JsonView>) -> Seq<SourceView> {
    if m.dom().contains("sources"@) {
        match m["sources"@] {
            JsonView::Array(items) => sources_among(items),
            _ => seq![],
        }
    } else {
        seq![]
    }
}

/// The identifier of a fact: the same for facts that differ only in case and
/// in surrounding white space.
pub open spec fn relation_id_of(s: Seq<char>, p: Seq<char>, o: Seq<char>) -> Seq<char> {
    short_id(
        "rel_"@,
        lowercase(trim(s)) + "\0"@ + lowercase(trim(p)) + "\0"@ + lowercase(trim(o)),
    )
}

/// The fact that a document's fields state.
pub open spec fn card_of(m: Map<Seq<char>, JsonView>, path: Seq<char>) -> Result<
    Option<CardView>,
    Seq<char>,
> {
    match (field_text(m, "subject"@), field_text(m, "predicate"@), field_text(m, "object"@)) {
        (Some(subject), Some(predicate), Some(object)) => if trim(subject).len() == 0 || trim(
            predicate,
        ).len() == 0 || trim(object).len() == 0 {
            Err("relation card "@ + path + " has an empty subject/predicate/object"@)
        } else {
            Ok(
                Some(
                    CardView {
                        subject,
                        predicate,
                        object,
                        confidence: field_text(m, "confidence"@),
                        status: match field_text(m, "status"@) {
                            Some(t) => t,
                            None => "proposed"@,
                        },
                        sources: sources_of(m),
                        schema_version: match field_i32(m, "schema_version"@) {
                            Some(v) => Some(v as i32),
                            None => None,
                        },
                    },
                ),
            )
        },
        _ => Ok(None),
    }
}

/// The fact that the document at `path` states, where it is a card of the wiki
/// at `root`.
pub open spec fn card_at(path: Seq<char>, content: Seq<char>, root: Seq<char>) -> Result<
    Option<CardView>,
    Seq<char>,
> {
    match normal_root(root) {
        Err(e) => Err(e),
        Ok(r) => if starts_with(normal_path(path), r + "relations/"@) {
            card_of(document_fields(content), path)
        } else {
            Ok(None)
        },
    }
}

/// What the outcome of reading a card is.
pub open spec fn card_outcome(r: Result<Option<RelationCard>, String>) -> Result<
    Option<CardView>,
    Seq<char>,
> {
    match r {
        Ok(Some(c)) => Ok(Some(c@)),
        Ok(None) => Ok(None),
        Err(e) => Err(e@),
    }
}

/// The identifier of a fact.
pub fn relation_id(subject: &str, predicate: &str, object: &str) -> (r: String)
    ensures
        r@ == relation_id_of(subject@, predicate@, object@),
        is_short_id("rel_"@, r@),
{
    let subject = lowered_trimmed(subject);
    let predicate = lowered_trimmed(predicate);
    let object = lowered_trimmed(object);
    let mut material = chars_of(subject.as_str());
    push_text(&mut material, "\0");
    push_text(&mut material, predicate.as_str());
    push_text(&mut material, "\0");
    push_text(&mut material, object.as_str());
    let material = string_of(material.as_slice());
    make_id("rel_", material.as_str())
}

/// The lower-case form of a text without surrounding white space.
fn lowered_trimmed(s: &str) -> (r: String)
    ensures
        r@ == lowercase(trim(s@)),
{
    let chars = chars_of(s);
    let t = string_of(trimmed(chars.as_slice()));
    to_lower(t.as_str())
}

/// The fact that the document at `path` states, where it is a card of the default wiki.
pub fn parse_relation_card(path: &str, content: &str) -> (r: Result<Option<RelationCard>, String>)
    ensures
        card_outcome(r) == card_at(path@, content@, WIKI_ROOT@),
{
    parse_relation_card_under(path, content, WIKI_ROOT)
}

/// The fact that the document at `path` states, where it is a card of the wiki
/// at `wiki_root`: `None` where it is none, an error where a part of the fact is empty.
pub fn parse_relation_card_under(path: &str, content: &str, wiki_root: &str) -> (r: Result<
    Option<RelationCard>,
    String,
>)
    ensures
        card_outcome(r) == card_at(path@, content@, wiki_root@),
{
    let root = match normalize_wiki_root(wiki_root) {
        Ok(root) => root,
        Err(e) => {
            return Err(e);
        },
    };
    let normalized = normal_chars(path);
    if !under_dir(normalized.as_slice(), root.as_str(), "relations/") {
        return Ok(None);
    }
    let (fm, _) = parse_frontmatter(content);
    card_from_fields(&fm, path)
}

/// The fact that a document's fields state.
pub fn card_from_fields(fm: &FrontMatter, path: &str) -> (r: Result<Option<RelationCard>, String>)
    ensures
        card_outcome(r) == card_of(fm@, path@),
{
    let subject = match frontmatter_scalar(fm, "subject") {
        Some(t) => t,
        None => {
            return Ok(None);
        },
    };
    let predicate = match frontmatter_scalar(fm, "predicate") {
        Some(t) => t,
        None => {
            return Ok(None);
        },
    };
    let object = match frontmatter_scalar(fm, "object") {
        Some(t) => t,
        None => {
            return Ok(None);
        },
    };
    if is_blank(subject.as_str()) || is_blank(predicate.as_str()) || is_blank(object.as_str()) {
        return Err(
            concat3("relation card ", path, " has an empty subject/predicate/object"),
        );
    }
    let confidence = frontmatter_scalar(fm, "confidence");
    let status = match frontmatter_scalar(fm, "status") {
        Some(t) => t,
        None => "proposed".to_owned(),
    };
    let schema_version = frontmatter_i32(fm, "schema_version");
    let sources = parse_sources(fm);
    Ok(
        Some(
            RelationCard {
                subject,
                predicate,
                object,
                confidence,
                status,
                sources,
                schema_version,
            },
        ),
    )
}

/// An owned copy of the text under `key`.
fn owned_at(v: &Json, key: &str) -> (r: Option<String>)
    ensures
        opt_text(r) == v@.str_at(key@),
{
    match v.str_at(key) {
        Some(s) => Some(s.to_owned()),
        None => None,
    }
}

/// The sources that a document's fields name.
pub fn parse_sources(fm: &FrontMatter) -> (r: Vec<RelationSource>)
    ensures
        source_views(r@) == sources_of(fm@),
{
    let mut out: Vec<RelationSource> = Vec::new();
    assert(source_views(out@) =~= Seq::<SourceView>::empty());
    match entry(&fm.fields, "sources") {
        Some(Json::Array(items)) => {
            let ghost iv = items_view(items@);
            proof {
                lemma_items_view(items@);
            }
            let mut i: usize = 0;
            assert(iv.take(0) =~= Seq::<JsonView>::empty());
            while i < items.len()
                invariant
                    i <= items@.len(),
                    iv == items_view(items@),
                    iv.len() == items@.len(),
                    forall|j: int| 0 <= j < items@.len() ==> iv[j] == (#[trigger] items@[j])@,
                    source_views(out@) == sources_among(iv.take(i as int)),
                decreases items@.len() - i,
            {
                assert(iv.take(i + 1).drop_last() == iv.take(i as int));
                let ghost before = out@;
                let item = &items[i];
                if let Some(path) = owned_at(item, "path") {
                    let source = RelationSource {
                        path,
                        chunk_id: owned_at(item, "chunk_id"),
                        quote: owned_at(item, "quote"),
                    };
                    out.push(source);
                    assert(source_views(out@) =~= source_views(before).push(source@));
                }
                i += 1;
            }
            assert(iv.take(i as int) == iv);
            out
        },
        _ => out,
    }
}

/// A card states a whole fact: none of its three parts is blank.
pub proof fn law_cards_state_whole_facts(path: Seq<char>, content: Seq<char>, root: Seq<char>)
    requires
        card_at(path, content, root) matches Ok(Some(_)),
    ensures
        ({
            let card = card_at(path, content, root)->Ok_0->Some_0;
            trim(card.subject).len() > 0 && trim(card.predicate).len() > 0 && trim(
                card.object,
            ).len() > 0
        }),
{
}

/// Facts that differ only in case and in surrounding white space have one identifier.
pub proof fn law_relation_id_ignores_case_and_space(
    s: Seq<char>,
    p: Seq<char>,
    o: Seq<char>,
    s2: Seq<char>,
    p2: Seq<char>,
    o2: Seq<char>,
)
    requires
        lowercase(trim(s)) == lowercase(trim(s2)),
        lowercase(trim(p)) == lowercase(trim(p2)),
        lowercase(trim(o)) == lowercase(trim(o2)),
    ensures
        relation_id_of(s, p, o) == relation_id_of(s2, p2, o2),
{
}

/// A document under the directory `relations` of a wiki states a fact where its
/// front matter has a subject, a predicate and an object; it is at fault where one
/// of them is blank, and states none where one is missing. Other documents state
/// none.
pub proof fn law_cards_are_found(path: Seq<char>, content: Seq<char>, root: Seq<char>)
    requires
        normal_root(root) is Ok,
    ensures
        ({
            let m = document_fields(content);
            let (s, p, o) = (
                field_text(m, "subject"@),
                field_text(m, "predicate"@),
                field_text(m, "object"@),
            );
            let here = starts_with(normal_path(path), normal_root(root)->Ok_0 + "relations/"@);
            &&& !here || s is None || p is None || o is None ==> card_at(path, content, root)
                == Ok::<Option<CardView>, Seq<char>>(None)
            &&& here && s is Some && p is Some && o is Some ==> {
                let blank = trim(s->0).len() == 0 || trim(p->0).len() == 0 || trim(o->0).len() == 0;
                &&& blank ==> card_at(path, content, root) == Err::<Option<CardView>, Seq<char>>(
                    "relation card "@ + path + " has an empty subject/predicate/object"@,
                )
                &&& !blank ==> {
                    &&& card_at(path, content, root) matches Ok(Some(c))
                    &&& c.subject == s->0
                    &&& c.predicate == p->0
                    &&& c.object == o->0
                    &&& c.sources == sources_of(m)
                }
            }
        }),
{
}

/// The identifier of a fact is made of its subject, its predicate and its object,
/// each in lower case and without white space around it.
pub proof fn law_facts_are_identified(s: Seq<char>, p: Seq<char>, o: Seq<char>)
    ensures
        relation_id_of(s, p, o) == "rel_"@ + crate::digest::text_digest(
            lowercase(trim(s)) + "\0"@ + lowercase(trim(p)) + "\0"@ + lowercase(trim(o)),
        ).take(24),
{
}

/// The sources of a fact are the objects with a path among those that are listed, in
/// their order, with the chunk and the quote that they name.
pub proof fn law_sources_are_listed(a: Seq<JsonView>, b: Seq<JsonView>, v: JsonView)
    ensures
        sources_among(a + b) == sources_among(a) + sources_among(b),
        v.str_at("path"@) is None ==> sources_among(seq![v]).len() == 0,
        v.str_at("path"@) matches Some(path) ==> sources_among(seq![v]) == seq![
            SourceView {
                path,
                chunk_id: v.str_at("chunk_id"@),
                quote: v.str_at("quote"@),
            },
        ],
    decreases b.len(),
{
    let none = Seq::<JsonView>::empty();
    assert(sources_among(none) =~= Seq::<SourceView>::empty());
    assert(seq![v].drop_last() =~= none);
    assert(seq![v].last() == v);
    if v.str_at("path"@) is Some {
        assert(sources_among(seq![v]) =~= seq![source_of(v)->0]);
    }
    if b.len() == 0 {
        assert(a + b =~= a);
        assert(sources_among(a) + sources_among(b) =~= sources_among(a));
    } else {
        assert((a + b).drop_last() =~= a + b.drop_last());
        law_sources_are_listed(a, b.drop_last(), v);
        assert(sources_among(a + b) =~= sources_among(a) + sources_among(b));
    }
}

/// Cards and their sources are seen as they are, field by field and in their order.
pub proof fn law_cards_are_seen_as_they_are(s: RelationSource, c: RelationCard, i: int)
    ensures
        s@.path == s.path@,
        s.chunk_id matches Some(x) ==> s@.chunk_id == Some(x@),
        s.chunk_id is None ==> s@.chunk_id is None,
        s.quote matches Some(x) ==> s@.quote == Some(x@),
        s.quote is None ==> s@.quote is None,
        c@.subject == c.subject@ && c@.predicate == c.predicate@ && c@.object == c.object@,
        c.confidence matches Some(x) ==> c@.confidence == Some(x@),
        c.confidence is None ==> c@.confidence is None,
        c@.status == c.status@ && c@.schema_version == c.schema_version,
        c@.sources.len() == c.sources@.len(),
        0 <= i < c.sources@.len() ==> c@.sources[i] == c.sources@[i]@,
{
}

/// The sources of a card are those that its front matter lists, and none where it
/// lists none.
pub proof fn law_cards_have_the_listed_sources(m: Map<Seq<char>, JsonView>, items: Seq<JsonView>)
    ensures
        m.dom().contains("sources"@) && m["sources"@] == JsonView::Array(items) ==> sources_of(m)
            == sources_among(items),
        m.dom().contains("sources"@) && !(m["sources"@] is Array) ==> sources_of(m).len() == 0,
        !m.dom().contains("sources"@) ==> sources_of(m).len() == 0,
{
}

} // verus!

//! What the tool answers, and what it asks the settings and the index for.

use vstd::prelude::*;
use vstd::utf8::encode_utf8;

use crate::bytes::{as_slice_opt, opt_slice};
use crate::digest::{content_sha256, text_digest};
use crate::json::{entries_view, int_number, put, text_values, texts_to_json, Json, JsonView};
use crate::json_text::written;
use crate::knowledge_wiki::context::DEFAULT_KNOWLEDGE_WIKI_NAMESPACE;
use crate::knowledge_wiki::types::{hit_views, HitView, ReportView, WikiSearchHit};
use crate::knowledge_wiki::types::WikiSyncReport;
use crate::text::{concat2, concat3};
use crate::wiki_tool::error::{text_outcome, ErrorView, ToolError};
use crate::wiki_tool::file_path::join;
use crate::wiki_tool::params::{requested_namespace, resolve_namespace, root_setting_key};
use crate::wiki_tool::params::{setting_key, WIKI_ROOT_SETTING_KEY};
use crate::wiki_tool::root::{configured_root, home_dir, root_contains, root_indexes};
use crate::wiki_tool::root::{root_kind, root_outcome, root_read_path, root_setting, root_shown};
use crate::wiki_tool::root::{RootView, WikiRoot};

verus! {

/// Where the root of a call comes from.
#[derive(Debug, PartialEq)]
pub enum RootSource {
    /// The call gives it.
    Given(WikiRoot),
    /// It is kept in the settings, under this owner and key.
    Setting { owner: String, key: String },
}

/// What a source is.
pub enum RootSourceView {
    Given(RootView),
    Setting(Seq<char>, Seq<char>),
}

impl View for RootSource {
    type V = RootSourceView;

    open spec fn view(&self) -> RootSourceView {
        match self {
            RootSource::Given(r) => RootSourceView::Given(r@),
            RootSource::Setting { owner, key } => RootSourceView::Setting(owner@, key@),
        }
    }
}

/// What the outcome of looking for a root's source is.
pub open spec fn source_outcome(r: Result<RootSource, ToolError>) -> Result<
    RootSourceView,
    ErrorView,
> {
    match r {
        Ok(s) => Ok(s@),
        Err(e) => Err(e@),
    }
}

/// Where the root of a call comes from.
pub open spec fn root_source_of(params: JsonView, home: Option<Seq<u8>>) -> Result<
    RootSourceView,
    ErrorView,
> {
    match params.str_at("wiki_root"@) {
        Some(raw) => match configured_root(raw, home) {
            Ok(r) => Ok(RootSourceView::Given(r)),
            Err(e) => Err(e),
        },
        None => match requested_namespace(params) {
            Ok(n) => Ok(
                RootSourceView::Setting(DEFAULT_KNOWLEDGE_WIKI_NAMESPACE@, setting_key(n)),
            ),
            Err(e) => Err(e),
        },
    }
}

/// What the settings hold: a value, nothing, or the reason why they could not be read.
pub open spec fn setting_view(s: Result<Option<Json>, String>) -> Result<
    Option<JsonView>,
    Seq<char>,
> {
    match s {
        Ok(Some(v)) => Ok(Some(v@)),
        Ok(None) => Ok(None),
        Err(e) => Err(e@),
    }
}

/// The root that the settings name: the default one where they hold none.
pub open spec fn setting_root(
    setting: Result<Option<JsonView>, Seq<char>>,
    base_dir: Seq<u8>,
    home: Option<Seq<u8>>,
) -> Result<RootView, ErrorView> {
    match setting {
        Ok(Some(JsonView::Text(raw))) => configured_root(raw, home),
        Ok(Some(v)) => Err(
            ErrorView::InvalidParameters(
                WIKI_ROOT_SETTING_KEY@ + " must be a string, got "@ + written(v),
            ),
        ),
        Ok(None) => Ok(RootView::File(join(base_dir, encode_utf8("wiki"@)))),
        Err(e) => Err(
            ErrorView::ExecutionFailed("load knowledge_wiki root setting failed: "@ + e),
        ),
    }
}

/// Where the root of a call comes from, for the user with this home directory.
pub fn root_source_in(params: &Json, home: Option<&[u8]>) -> (r: Result<RootSource, ToolError>)
    ensures
        source_outcome(r) == root_source_of(params@, opt_slice(home)),
{
    if let Some(raw) = params.str_at("wiki_root") {
        return match WikiRoot::parse_configured_in(raw, home) {
            Ok(root) => Ok(RootSource::Given(root)),
            Err(e) => Err(e),
        };
    }
    match resolve_namespace(params) {
        Ok(n) => Ok(
            RootSource::Setting {
                owner: DEFAULT_KNOWLEDGE_WIKI_NAMESPACE.to_owned(),
                key: root_setting_key(n.as_str()),
            },
        ),
        Err(e) => Err(e),
    }
}

/// Where the root of a call comes from.
pub fn root_source(params: &Json) -> (r: Result<RootSource, ToolError>)
    ensures
        exists|home: Option<Seq<u8>>|
            source_outcome(r) == #[trigger] root_source_of(params@, home),
{
    let home = home_dir();
    root_source_in(params, as_slice_opt(&home))
}

/// The root that the settings name, for the user with this home directory.
pub fn root_from_setting_in(
    setting: Result<Option<Json>, String>,
    base_dir: &[u8],
    home: Option<&[u8]>,
) -> (r: Result<WikiRoot, ToolError>)
    ensures
        root_outcome(r) == setting_root(setting_view(setting), base_dir@, opt_slice(home)),
{
    match setting {
        Ok(Some(v)) => match &v {
            Json::Text(raw) => WikiRoot::parse_configured_in(raw.as_str(), home),
            _ => {
                let text = v.write();
                Err(
                    ToolError::InvalidParameters(
                        concat3(WIKI_ROOT_SETTING_KEY, " must be a string, got ", text.as_str()),
                    ),
                )
            },
        },
        Ok(None) => Ok(WikiRoot::default_file_root(base_dir)),
        Err(e) => Err(
            ToolError::ExecutionFailed(
                concat2("load knowledge_wiki root setting failed: ", e.as_str()),
            ),
        ),
    }
}

/// The root that the settings name.
pub fn root_from_setting(setting: Result<Option<Json>, String>, base_dir: &[u8]) -> (r: Result<
    WikiRoot,
    ToolError,
>)
    ensures
        exists|home: Option<Seq<u8>>|
            root_outcome(r) == #[trigger] setting_root(setting_view(setting), base_dir@, home),
{
    let home = home_dir();
    root_from_setting_in(setting, base_dir, as_slice_opt(&home))
}

/// The results under a root, at most `limit` of them, in their order.
pub open spec fn hits_under(
    root: RootView,
    hits: Seq<HitView>,
    limit: nat,
    home: Option<Seq<u8>>,
) -> Seq<HitView>
    decreases hits.len(),
{
    if hits.len() == 0 {
        seq![]
    } else {
        let front = hits_under(root, hits.drop_last(), limit, home);
        if front.len() < limit && root_contains(root, hits.last().path, home) {
            front.push(hits.last())
        } else {
            front
        }
    }
}

/// The results under a root, for the user with this home directory.
pub fn keep_hits_in(
    root: &WikiRoot,
    hits: Vec<WikiSearchHit>,
    limit: usize,
    home: Option<&[u8]>,
) -> (r: Vec<WikiSearchHit>)
    ensures
        hit_views(r@) == hits_under(root@, hit_views(hits@), limit as nat, opt_slice(home)),
{
    let ghost hv = hit_views(hits@);
    let mut out: Vec<WikiSearchHit> = Vec::new();
    assert(hit_views(out@) =~= hits_under(root@, hv.take(0), limit as nat, opt_slice(home)));
    for hit in it: hits
        invariant
            it.seq() == hits@,
            hv == hit_views(hits@),
            hit_views(out@) == hits_under(
                root@,
                hv.take(it.index() as int),
                limit as nat,
                opt_slice(home),
            ),
    {
        let ghost i = it.index() as int;
        assert(hv.take(i + 1).drop_last() == hv.take(i));
        assert(hv.take(i + 1).last() == hit@);
        assert(hit_views(out@).len() == out@.len());
        if out.len() < limit && root.contains_path_in(hit.path.as_str(), home) {
            let ghost before = out@;
            out.push(hit);
            assert(hit_views(out@) =~= hit_views(before).push(hit@));
        }
    }
    assert(hv.take(hv.len() as int) == hv);
    out
}

/// A search gives at most as many results as were asked for, and all of them
/// lie under the root.
pub proof fn law_search_keeps_to_the_root(
    root: RootView,
    hits: Seq<HitView>,
    limit: nat,
    home: Option<Seq<u8>>,
)
    ensures
        hits_under(root, hits, limit, home).len() <= limit,
        forall|i: int|
            0 <= i < hits_under(root, hits, limit, home).len() ==> root_contains(
                root,
                (#[trigger] hits_under(root, hits, limit, home)[i]).path,
                home,
            ),
    decreases hits.len(),
{
    if hits.len() > 0 {
        law_search_keeps_to_the_root(root, hits.drop_last(), limit, home);
    }
}

/// The fields that describe a root in an answer.
pub open spec fn with_root(m: Map<Seq<char>, JsonView>, root: RootView) -> Map<
    Seq<char>,
    JsonView,
> {
    m.insert("wiki_root"@, JsonView::Text(root_shown(root))).insert(
        "wiki_root_kind"@,
        JsonView::Text(root_kind(root)),
    )
}

fn put_root(out: &mut Vec<(String, Json)>, root: &WikiRoot)
    ensures
        entries_view(final(out)@) == with_root(entries_view(old(out)@), root@),
{
    put(out, "wiki_root", Json::Text(root.display()));
    put(out, "wiki_root_kind", Json::text(root.kind()));
}

/// The results of a search, or the error where the index could not be asked.
pub open spec fn search_outcome(
    root: RootView,
    found: Result<Seq<HitView>, Seq<char>>,
    limit: nat,
    home: Option<Seq<u8>>,
) -> Result<Seq<HitView>, ErrorView> {
    match found {
        Ok(hits) => Ok(hits_under(root, hits, limit, home)),
        Err(e) => Err(ErrorView::ExecutionFailed("knowledge_wiki search failed: "@ + e)),
    }
}

/// What the index gave: results, or the reason why it gave none.
pub open spec fn found_view(found: Result<Vec<WikiSearchHit>, String>) -> Result<
    Seq<HitView>,
    Seq<char>,
> {
    match found {
        Ok(hits) => Ok(hit_views(hits@)),
        Err(e) => Err(e@),
    }
}

/// What the outcome of a search is.
pub open spec fn hits_outcome(r: Result<Vec<WikiSearchHit>, ToolError>) -> Result<
    Seq<HitView>,
    ErrorView,
> {
    match r {
        Ok(hits) => Ok(hit_views(hits@)),
        Err(e) => Err(e@),
    }
}

/// The results of a search, for the user with this home directory.
pub fn search_results_in(
    root: &WikiRoot,
    found: Result<Vec<WikiSearchHit>, String>,
    limit: usize,
    home: Option<&[u8]>,
) -> (r: Result<Vec<WikiSearchHit>, ToolError>)
    ensures
        hits_outcome(r) == search_outcome(
            root@,
            found_view(found),
            limit as nat,
            opt_slice(home),
        ),
{
    match found {
        Ok(hits) => Ok(keep_hits_in(root, hits, limit, home)),
        Err(e) => Err(
            ToolError::ExecutionFailed(concat2("knowledge_wiki search failed: ", e.as_str())),
        ),
    }
}

/// The results of a search.
pub fn search_results(
    root: &WikiRoot,
    found: Result<Vec<WikiSearchHit>, String>,
    limit: usize,
) -> (r: Result<Vec<WikiSearchHit>, ToolError>)
    ensures
        exists|home: Option<Seq<u8>>|
            hits_outcome(r) == #[trigger] search_outcome(
                root@,
                found_view(found),
                limit as nat,
                home,
            ),
{
    let home = home_dir();
    search_results_in(root, found, limit, as_slice_opt(&home))
}

/// The answer to a search. The results are given as they are written.
pub fn search_answer(query: &str, namespace: &str, root: &WikiRoot, hits: Vec<Json>) -> (r: Json)
    ensures
        r@ == JsonView::Object(
            with_root(
                Map::empty().insert("query"@, JsonView::Text(query@)).insert(
                    "namespace"@,
                    JsonView::Text(namespace@),
                ),
                root@,
            ).insert("hits"@, JsonView::Array(crate::json::items_view(hits@))),
        ),
{
    let mut out: Vec<(String, Json)> = Vec::new();
    put(&mut out, "query", Json::text(query));
    put(&mut out, "namespace", Json::text(namespace));
    put_root(&mut out, root);
    put(&mut out, "hits", Json::Array(hits));
    Json::Object(out)
}

/// The path of the document that a call may read.
pub open spec fn readable_path(
    root: RootView,
    raw: Seq<char>,
    home: Option<Seq<u8>>,
) -> Result<Seq<char>, ErrorView> {
    match root_read_path(root, raw, home) {
        Err(e) => Err(e),
        Ok(path) => if root_indexes(root, path, home) {
            Ok(path)
        } else {
            Err(
                ErrorView::InvalidParameters(
                    "knowledge_wiki read only accepts indexable Markdown paths under "@
                        + root_shown(root),
                ),
            )
        },
    }
}

/// The path of the document that a call may read, for the user with this home directory.
pub fn read_path_in(root: &WikiRoot, raw: &str, home: Option<&[u8]>) -> (r: Result<
    String,
    ToolError,
>)
    ensures
        text_outcome(r) == readable_path(root@, raw@, opt_slice(home)),
{
    let path = match root.resolve_read_path_in(raw, home) {
        Ok(p) => p,
        Err(e) => {
            return Err(e);
        },
    };
    if root.is_indexable_path_in(path.as_str(), home) {
        Ok(path)
    } else {
        let shown = root.display();
        Err(
            ToolError::InvalidParameters(
                concat2(
                    "knowledge_wiki read only accepts indexable Markdown paths under ",
                    shown.as_str(),
                ),
            ),
        )
    }
}

/// The answer to a read, or the error where the document could not be read.
pub fn read_answer(
    root: &WikiRoot,
    namespace: &str,
    path: &str,
    content: Result<String, String>,
) -> (r: Result<Json, ToolError>)
    ensures
        match (r, content) {
            (Ok(answer), Ok(text)) => answer@ == JsonView::Object(
                with_root(Map::empty(), root@).insert(
                    "namespace"@,
                    JsonView::Text(namespace@),
                ).insert("path"@, JsonView::Text(path@)).insert(
                    "content_sha256"@,
                    JsonView::Text(text_digest(text@)),
                ).insert("content"@, JsonView::Text(text@)),
            ),
            (Err(e), Err(reason)) => e@ == ErrorView::ExecutionFailed(
                "read wiki document failed: "@ + reason@,
            ),
            _ => false,
        },
{
    match content {
        Err(reason) => Err(
            ToolError::ExecutionFailed(concat2("read wiki document failed: ", reason.as_str())),
        ),
        Ok(text) => {
            let mut out: Vec<(String, Json)> = Vec::new();
            put_root(&mut out, root);
            put(&mut out, "namespace", Json::text(namespace));
            put(&mut out, "path", Json::text(path));
            put(&mut out, "content_sha256", Json::Text(content_sha256(text.as_str())));
            put(&mut out, "content", Json::Text(text));
            Ok(Json::Object(out))
        },
    }
}

/// The answer to a question for the status: the counts of the index, with the
/// namespace and the root added where they form an object; or the error where
/// the index could not be asked.
pub fn status_answer(status: Result<Json, String>, namespace: &str, root: &WikiRoot) -> (r: Result<
    Json,
    ToolError,
>)
    ensures
        match (r, status) {
            (Ok(answer), Ok(counts)) => answer@ == match counts@ {
                JsonView::Object(m) => JsonView::Object(
                    with_root(m.insert("namespace"@, JsonView::Text(namespace@)), root@),
                ),
                other => other,
            },
            (Err(e), Err(reason)) => e@ == ErrorView::ExecutionFailed(
                "knowledge_wiki status failed: "@ + reason@,
            ),
            _ => false,
        },
{
    match status {
        Ok(Json::Object(entries)) => {
            let mut out = entries;
            put(&mut out, "namespace", Json::text(namespace));
            put_root(&mut out, root);
            Ok(Json::Object(out))
        },
        Ok(other) => Ok(other),
        Err(reason) => Err(
            ToolError::ExecutionFailed(concat2("knowledge_wiki status failed: ", reason.as_str())),
        ),
    }
}

/// What is written to the settings to configure a root.
#[derive(Debug, PartialEq)]
pub struct SettingWrite {
    pub owner: String,
    pub key: String,
    pub value: Json,
}

/// What is written to the settings to configure a root.
pub fn setting_write(namespace: &str, root: &WikiRoot) -> (r: SettingWrite)
    ensures
        r.owner@ == DEFAULT_KNOWLEDGE_WIKI_NAMESPACE@,
        r.key@ == setting_key(namespace@),
        r.value@ == JsonView::Text(root_setting(root@)),
{
    SettingWrite {
        owner: DEFAULT_KNOWLEDGE_WIKI_NAMESPACE.to_owned(),
        key: root_setting_key(namespace),
        value: Json::Text(root.setting_value()),
    }
}

/// The answer to a configuration, or the error where the root could not be kept.
pub fn configure_answer(kept: Result<(), String>, namespace: &str, root: &WikiRoot) -> (r: Result<
    Json,
    ToolError,
>)
    ensures
        match (r, kept) {
            (Ok(answer), Ok(_)) => answer@ == JsonView::Object(
                with_root(Map::empty(), root@).insert(
                    "namespace"@,
                    JsonView::Text(namespace@),
                ).insert("setting_key"@, JsonView::Text(setting_key(namespace@))),
            ),
            (Err(e), Err(reason)) => e@ == ErrorView::ExecutionFailed(
                "persist knowledge_wiki root failed: "@ + reason@,
            ),
            _ => false,
        },
{
    match kept {
        Ok(_) => {
            let mut out: Vec<(String, Json)> = Vec::new();
            put_root(&mut out, root);
            put(&mut out, "namespace", Json::text(namespace));
            put(&mut out, "setting_key", Json::Text(root_setting_key(namespace)));
            Ok(Json::Object(out))
        },
        Err(reason) => Err(
            ToolError::ExecutionFailed(
                concat2("persist knowledge_wiki root failed: ", reason.as_str()),
            ),
        ),
    }
}

/// A report as a value.
pub open spec fn report_value(r: ReportView) -> JsonView {
    JsonView::Object(
        Map::empty().insert("namespace"@, JsonView::Text(r.namespace)).insert(
            "wiki_root"@,
            JsonView::Text(r.wiki_root),
        ).insert("wiki_root_kind"@, JsonView::Text(r.wiki_root_kind)).insert(
            "scanned"@,
            JsonView::Number(int_number(r.scanned as int)),
        ).insert("indexed"@, JsonView::Number(int_number(r.indexed as int))).insert(
            "skipped"@,
            JsonView::Number(int_number(r.skipped as int)),
        ).insert("chunks"@, JsonView::Number(int_number(r.chunks as int))).insert(
            "relations"@,
            JsonView::Number(int_number(r.relations as int)),
        ).insert("errors"@, text_values(r.errors)),
    )
}

/// The answer to a synchronization.
pub fn sync_answer(report: &WikiSyncReport) -> (r: Json)
    ensures
        r@ == report_value(report@),
{
    let mut out: Vec<(String, Json)> = Vec::new();
    put(&mut out, "namespace", Json::text(report.namespace.as_str()));
    put(&mut out, "wiki_root", Json::text(report.wiki_root.as_str()));
    put(&mut out, "wiki_root_kind", Json::text(report.wiki_root_kind.as_str()));
    put(&mut out, "scanned", Json::from_u64(report.scanned as u64));
    put(&mut out, "indexed", Json::from_u64(report.indexed as u64));
    put(&mut out, "skipped", Json::from_u64(report.skipped as u64));
    put(&mut out, "chunks", Json::from_u64(report.chunks as u64));
    put(&mut out, "relations", Json::from_u64(report.relations as u64));
    put(&mut out, "errors", texts_to_json(&report.errors));
    Json::Object(out)
}

/// The results of a search are those under the root, in the order in which they were
/// found, as many as are asked for.
pub proof fn law_search_gives_the_first_under_the_root(
    root: RootView,
    hits: Seq<HitView>,
    limit: nat,
    home: Option<Seq<u8>>,
)
    ensures
        ({
            let under = hits.filter(|h: HitView| root_contains(root, h.path, home));
            hits_under(root, hits, limit, home) == if under.len() <= limit {
                under
            } else {
                under.take(limit as int)
            }
        }),
    decreases hits.len(),
{
    reveal(Seq::filter);
    let inside = |h: HitView| root_contains(root, h.path, home);
    if hits.len() > 0 {
        let front = hits.drop_last();
        law_search_gives_the_first_under_the_root(root, front, limit, home);
        let f = front.filter(inside);
        let all = hits.filter(inside);
        if root_contains(root, hits.last().path, home) {
            assert(all =~= f.push(hits.last()));
            if f.len() >= limit {
                assert(all.take(limit as int) =~= f.take(limit as int));
                assert(f.take(f.len() as int) =~= f);
            }
        } else {
            assert(all =~= f);
        }
    }
}

/// The answer to a synchronization gives every count of its report under its name.
pub proof fn law_reports_are_answered(r: ReportView)
    requires
        r.scanned <= u64::MAX,
        r.indexed <= u64::MAX,
        r.skipped <= u64::MAX,
        r.chunks <= u64::MAX,
        r.relations <= u64::MAX,
    ensures
        ({
            let v = report_value(r);
            &&& v.str_at("namespace"@) == Some(r.namespace)
            &&& v.str_at("wiki_root"@) == Some(r.wiki_root)
            &&& v.str_at("wiki_root_kind"@) == Some(r.wiki_root_kind)
            &&& v.get("scanned"@) matches Some(n) && n.as_u64() == Some(r.scanned as u64)
            &&& v.get("indexed"@) matches Some(n) && n.as_u64() == Some(r.indexed as u64)
            &&& v.get("skipped"@) matches Some(n) && n.as_u64() == Some(r.skipped as u64)
            &&& v.get("chunks"@) matches Some(n) && n.as_u64() == Some(r.chunks as u64)
            &&& v.get("relations"@) matches Some(n) && n.as_u64() == Some(r.relations as u64)
            &&& v.get("errors"@) matches Some(JsonView::Array(es)) && es.len() == r.errors.len() && (
            forall|i: int|
                0 <= i < r.errors.len() ==> #[trigger] es[i] == JsonView::Text(r.errors[i]))
        }),
{
    lemma_report_keys();
}

/// Answers name the root as it is shown, and its kind.
pub proof fn law_answers_name_the_root(m: Map<Seq<char>, JsonView>, root: RootView, k: Seq<char>)
    ensures
        JsonView::Object(with_root(m, root)).str_at("wiki_root"@) == Some(root_shown(root)),
        JsonView::Object(with_root(m, root)).str_at("wiki_root_kind"@) == Some(root_kind(root)),
        k != "wiki_root"@ && k != "wiki_root_kind"@ ==> JsonView::Object(with_root(m, root)).get(k)
            == JsonView::Object(m).get(k),
{
    lemma_report_keys();
}

/// The root of a call is the one that it gives, or else that of the setting of its
/// namespace; where none is kept it is the directory `wiki` in the base directory.
pub proof fn law_roots_come_from_calls_and_settings(
    params: JsonView,
    raw: Seq<char>,
    base_dir: Seq<u8>,
    home: Option<Seq<u8>>,
    e: Seq<char>,
)
    ensures
        params.str_at("wiki_root"@) == Some(raw) ==> match configured_root(raw, home) {
            Ok(r) => root_source_of(params, home) == Ok::<RootSourceView, ErrorView>(
                RootSourceView::Given(r),
            ),
            Err(e) => root_source_of(params, home) == Err::<RootSourceView, ErrorView>(e),
        },
        params.str_at("wiki_root"@) is None ==> match requested_namespace(params) {
            Ok(n) => root_source_of(params, home) == Ok::<RootSourceView, ErrorView>(
                RootSourceView::Setting("global"@, setting_key(n)),
            ),
            Err(e) => root_source_of(params, home) == Err::<RootSourceView, ErrorView>(e),
        },
        setting_root(Ok(Some(JsonView::Text(raw))), base_dir, home) == configured_root(raw, home),
        setting_root(Ok(None), base_dir, home) == Ok::<RootView, ErrorView>(
            RootView::File(join(base_dir, encode_utf8("wiki"@))),
        ),
        setting_root(Err(e), base_dir, home) == Err::<RootView, ErrorView>(
            ErrorView::ExecutionFailed("load knowledge_wiki root setting failed: "@ + e),
        ),
{
}

/// A document may be read where the path that a call names is that of an indexed
/// document, and else the call is not accepted.
pub proof fn law_only_indexed_documents_are_read(
    root: RootView,
    raw: Seq<char>,
    home: Option<Seq<u8>>,
)
    ensures
        match root_read_path(root, raw, home) {
            Ok(p) => if root_indexes(root, p, home) {
                readable_path(root, raw, home) == Ok::<Seq<char>, ErrorView>(p)
            } else {
                readable_path(root, raw, home) == Err::<Seq<char>, ErrorView>(
                    ErrorView::InvalidParameters(
                        "knowledge_wiki read only accepts indexable Markdown paths under "@
                            + root_shown(root),
                    ),
                )
            },
            Err(e) => readable_path(root, raw, home) == Err::<Seq<char>, ErrorView>(e),
        },
{
}

proof fn lemma_report_keys()
    ensures
        "namespace"@ != "wiki_root"@,
        "namespace"@ != "wiki_root_kind"@,
        "namespace"@ != "scanned"@,
        "namespace"@ != "indexed"@,
        "namespace"@ != "skipped"@,
        "namespace"@ != "chunks"@,
        "namespace"@ != "relations"@,
        "namespace"@ != "errors"@,
        "wiki_root"@ != "wiki_root_kind"@,
        "wiki_root"@ != "scanned"@,
        "wiki_root"@ != "indexed"@,
        "wiki_root"@ != "skipped"@,
        "wiki_root"@ != "chunks"@,
        "wiki_root"@ != "relations"@,
        "wiki_root"@ != "errors"@,
        "wiki_root_kind"@ != "scanned"@,
        "wiki_root_kind"@ != "indexed"@,
        "wiki_root_kind"@ != "skipped"@,
        "wiki_root_kind"@ != "chunks"@,
        "wiki_root_kind"@ != "relations"@,
        "wiki_root_kind"@ != "errors"@,
        "scanned"@ != "indexed"@,
        "scanned"@ != "skipped"@,
        "scanned"@ != "chunks"@,
        "scanned"@ != "relations"@,
        "scanned"@ != "errors"@,
        "indexed"@ != "skipped"@,
        "indexed"@ != "chunks"@,
        "indexed"@ != "relations"@,
        "indexed"@ != "errors"@,
        "skipped"@ != "chunks"@,
        "skipped"@ != "relations"@,
        "skipped"@ != "errors"@,
        "chunks"@ != "relations"@,
        "chunks"@ != "errors"@,
        "relations"@ != "errors"@,
{
    reveal_strlit("namespace");
    reveal_strlit("wiki_root");
    reveal_strlit("wiki_root_kind");
    reveal_strlit("scanned");
    reveal_strlit("indexed");
    reveal_strlit("skipped");
    reveal_strlit("chunks");
    reveal_strlit("relations");
    reveal_strlit("errors");
    assert("chunks"@.len() == 6);
    assert("chunks"@[0] == 'c');
    assert("errors"@.len() == 6);
    assert("errors"@[0] == 'e');
    assert("indexed"@.len() == 7);
    assert("indexed"@[0] == 'i');
    assert("namespace"@.len() == 9);
    assert("namespace"@[0] == 'n');
    assert("relations"@.len() == 9);
    assert("relations"@[0] == 'r');
    assert("scanned"@.len() == 7);
    assert("scanned"@[0] == 's');
    assert("scanned"@[1] == 'c');
    assert("skipped"@.len() == 7);
    assert("skipped"@[0] == 's');
    assert("skipped"@[1] == 'k');
    assert("wiki_root"@.len() == 9);
    assert("wiki_root"@[0] == 'w');
    assert("wiki_root_kind"@.len() == 14);
}

/// A search that could not be made says why, and so does a setting that names no root.
pub proof fn law_failed_answers_say_why(
    root: RootView,
    e: Seq<char>,
    v: JsonView,
    limit: nat,
    base_dir: Seq<u8>,
    home: Option<Seq<u8>>,
)
    ensures
        search_outcome(root, Err(e), limit, home) == Err::<Seq<HitView>, ErrorView>(
            ErrorView::ExecutionFailed("knowledge_wiki search failed: "@ + e),
        ),
        !(v is Text) ==> setting_root(Ok(Some(v)), base_dir, home) == Err::<RootView, ErrorView>(
            ErrorView::InvalidParameters(
                "knowledge_wiki.root must be a string, got "@ + written(v),
            ),
        ),
        setting_root(Err(e), base_dir, home) == Err::<RootView, ErrorView>(
            ErrorView::ExecutionFailed("load knowledge_wiki root setting failed: "@ + e),
        ),
{
    reveal_strlit("knowledge_wiki.root");
    reveal_strlit(" must be a string, got ");
    reveal_strlit("knowledge_wiki.root must be a string, got ");
    assert("knowledge_wiki.root"@ + " must be a string, got "@
        =~= "knowledge_wiki.root must be a string, got "@);
}

} // verus!

//! The tool itself: what it offers, and how a call of it goes.

use vstd::prelude::*;

use crate::bytes::{as_slice_opt, opt_slice};
use crate::json::{put, texts_to_json, Json, JsonView};
use crate::json::text_values;
use crate::text::texts;
use crate::wiki_tool::answers::{read_path_in, readable_path, root_source_in, root_source_of};
use crate::wiki_tool::answers::{setting_write, RootSource, RootSourceView, SettingWrite};
use crate::wiki_tool::error::{ErrorView, ToolError};
use crate::wiki_tool::params::{index_limit, is_forced, parse_mode, requested_limit};
use crate::wiki_tool::params::{requested_mode, requested_namespace, require_str, required_text};
use crate::wiki_tool::params::{resolve_namespace, search_limits, setting_key, Mode};
use crate::wiki_tool::root::{home_dir, root_prefix, root_setting, RootView, WikiRoot};
use crate::wiki_tool::sync::{run_start, sound, RunView, SyncRun};

verus! {

/// A property of an object, in a schema.
pub open spec fn property(kind: Seq<char>, description: Seq<char>) -> JsonView {
    JsonView::Object(
        Map::empty().insert("type"@, JsonView::Text(kind)).insert(
            "description"@,
            JsonView::Text(description),
        ),
    )
}

fn schema_property(kind: &str, description: &str) -> (r: Json)
    ensures
        r@ == property(kind@, description@),
{
    let mut out: Vec<(String, Json)> = Vec::new();
    put(&mut out, "type", Json::text(kind));
    put(&mut out, "description", Json::text(description));
    Json::Object(out)
}

/// The names of the modes.
pub open spec fn mode_names() -> Seq<Seq<char>> {
    seq!["sync"@, "search"@, "read"@, "status"@, "configure"@]
}

/// The schema of the parameter that names the mode.
pub open spec fn mode_property() -> JsonView {
    JsonView::Object(
        Map::empty().insert("type"@, JsonView::Text("string"@)).insert(
            "enum"@,
            text_values(mode_names()),
        ).insert("description"@, JsonView::Text("Operation to run."@)),
    )
}

/// What the tool's parameters may be.
pub open spec fn tool_schema() -> JsonView {
    let properties = Map::empty().insert("mode"@, mode_property()).insert(
        "path"@,
        property(
            "string"@,
            "Path or prefix under the configured wiki root. For file roots, relative paths resolve under the file root."@,
        ),
    ).insert(
        "wiki_root"@,
        property(
            "string"@,
            "Optional wiki root. Absolute paths and file: paths read local Markdown; workspace:<path> reads workspace Markdown. Bare relative paths are treated as workspace paths. Overrides the configured default for this call; configure mode persists it."@,
        ),
    ).insert(
        "namespace"@,
        property("string"@, "Knowledge wiki namespace. Defaults to global."@),
    ).insert(
        "query"@,
        property(
            "string"@,
            "search mode query over chunk previews and SPO relation index."@,
        ),
    ).insert("limit"@, property("integer"@, "Maximum search hits, default 10, max 100."@)).insert(
        "force"@,
        property("boolean"@, "sync mode: reindex even when content hash is unchanged."@),
    );
    JsonView::Object(
        Map::empty().insert("type"@, JsonView::Text("object"@)).insert(
            "properties"@,
            JsonView::Object(properties),
        ).insert("required"@, text_values(seq!["mode"@])),
    )
}

/// How often the tool may be called.
#[derive(Clone, Copy, Debug, PartialEq, Eq, Structural)]
pub struct RateLimit {
    pub per_minute: u32,
    pub per_hour: u32,
}

/// The tool.
#[derive(Clone, Debug, PartialEq)]
pub struct KnowledgeWikiTool {
    pub tool_name: &'static str,
}

impl KnowledgeWikiTool {
    /// The tool under its usual name.
    pub fn new() -> (r: Self)
        ensures
            r.tool_name@ == "knowledge_wiki"@,
    {
        KnowledgeWikiTool { tool_name: "knowledge_wiki" }
    }

    /// The tool under another name.
    pub fn new_with_name(tool_name: &'static str) -> (r: Self)
        ensures
            r.tool_name@ == tool_name@,
    {
        KnowledgeWikiTool { tool_name }
    }

    /// The tool's name.
    pub fn name(&self) -> (r: &str)
        ensures
            r@ == self.tool_name@,
    {
        self.tool_name
    }

    /// What the tool is for.
    pub fn description(&self) -> (r: &str)
        ensures
            r@ == "Synchronize and query the Markdown-backed local knowledge wiki. Markdown under the configured wiki root is the human-editable source of truth; this tool maintains DB indexes for chunks and SPO relation fact cards. Modes: sync, search, read, status, configure."@,
    {
        "Synchronize and query the Markdown-backed local knowledge wiki. Markdown under the configured wiki root is the human-editable source of truth; this tool maintains DB indexes for chunks and SPO relation fact cards. Modes: sync, search, read, status, configure."
    }

    /// What the tool's parameters may be.
    pub fn parameters_schema(&self) -> (r: Json)
        ensures
            r@ == tool_schema(),
    {
        let mut modes: Vec<String> = Vec::new();
        modes.push("sync".to_owned());
        modes.push("search".to_owned());
        modes.push("read".to_owned());
        modes.push("status".to_owned());
        modes.push("configure".to_owned());
        assert(texts(modes@) =~= mode_names());
        let mut mode: Vec<(String, Json)> = Vec::new();
        put(&mut mode, "type", Json::text("string"));
        put(&mut mode, "enum", texts_to_json(&modes));
        put(&mut mode, "description", Json::text("Operation to run."));
        let mut properties: Vec<(String, Json)> = Vec::new();
        put(&mut properties, "mode", Json::Object(mode));
        put(
            &mut properties,
            "path",
            schema_property(
                "string",
                "Path or prefix under the configured wiki root. For file roots, relative paths resolve under the file root.",
            ),
        );
        put(
            &mut properties,
            "wiki_root",
            schema_property(
                "string",
                "Optional wiki root. Absolute paths and file: paths read local Markdown; workspace:<path> reads workspace Markdown. Bare relative paths are treated as workspace paths. Overrides the configured default for this call; configure mode persists it.",
            ),
        );
        put(
            &mut properties,
            "namespace",
            schema_property("string", "Knowledge wiki namespace. Defaults to global."),
        );
        put(
            &mut properties,
            "query",
            schema_property(
                "string",
                "search mode query over chunk previews and SPO relation index.",
            ),
        );
        put(
            &mut properties,
            "limit",
            schema_property("integer", "Maximum search hits, default 10, max 100."),
        );
        put(
            &mut properties,
            "force",
            schema_property("boolean", "sync mode: reindex even when content hash is unchanged."),
        );
        let mut required: Vec<String> = Vec::new();
        required.push("mode".to_owned());
        assert(texts(required@) =~= seq!["mode"@]);
        let mut out: Vec<(String, Json)> = Vec::new();
        put(&mut out, "type", Json::text("object"));
        put(&mut out, "properties", Json::Object(properties));
        put(&mut out, "required", texts_to_json(&required));
        Json::Object(out)
    }

    /// Whether what the tool gives must be cleaned before it is used.
    pub fn requires_sanitization(&self) -> (r: bool)
        ensures
            !r,
    {
        false
    }

    /// How often the tool may be called.
    pub fn rate_limit_config(&self) -> (r: Option<RateLimit>)
        ensures
            r == Some(RateLimit { per_minute: 20, per_hour: 200 }),
    {
        Some(RateLimit { per_minute: 20, per_hour: 200 })
    }
}

/// A call whose parameters have been looked at: what it asks for, and where its
/// root comes from.
#[derive(Debug, PartialEq)]
pub struct CallStart {
    pub mode: Mode,
    pub source: RootSource,
}

/// The text parameter without which a mode cannot work.
pub open spec fn needed_text(mode: Mode) -> Option<Seq<char>> {
    match mode {
        Mode::Search => Some("query"@),
        Mode::Read => Some("path"@),
        Mode::Configure => Some("wiki_root"@),
        Mode::Sync | Mode::Status => None,
    }
}

/// What a call asks for, and where its root comes from.
pub open spec fn call_start(params: JsonView, home: Option<Seq<u8>>) -> Result<
    (Mode, RootSourceView),
    ErrorView,
> {
    match requested_mode(params) {
        Err(e) => Err(e),
        Ok(mode) => {
            let needed = match needed_text(mode) {
                Some(name) => required_text(params, name),
                None => Ok(seq![]),
            };
            match needed {
                Err(e) => Err(e),
                Ok(_) => match root_source_of(params, home) {
                    Err(e) => Err(e),
                    Ok(source) => Ok((mode, source)),
                },
            }
        },
    }
}

/// What the outcome of looking at a call is.
pub open spec fn start_outcome(r: Result<CallStart, ToolError>) -> Result<
    (Mode, RootSourceView),
    ErrorView,
> {
    match r {
        Ok(s) => Ok((s.mode, s.source@)),
        Err(e) => Err(e@),
    }
}

/// What a call asks for, for the user with this home directory.
pub fn start_call_in(params: &Json, home: Option<&[u8]>) -> (r: Result<CallStart, ToolError>)
    ensures
        start_outcome(r) == call_start(params@, opt_slice(home)),
{
    let mode = match parse_mode(params) {
        Ok(m) => m,
        Err(e) => {
            return Err(e);
        },
    };
    let needed = match mode {
        Mode::Search => Some("query"),
        Mode::Read => Some("path"),
        Mode::Configure => Some("wiki_root"),
        Mode::Sync | Mode::Status => None,
    };
    if let Some(name) = needed {
        if let Err(e) = require_str(params, name) {
            return Err(e);
        }
    }
    match root_source_in(params, home) {
        Ok(source) => Ok(CallStart { mode, source }),
        Err(e) => Err(e),
    }
}

/// What a call asks for, and where its root comes from.
pub fn start_call(params: &Json) -> (r: Result<CallStart, ToolError>)
    ensures
        exists|home: Option<Seq<u8>>|
            start_outcome(r) == #[trigger] call_start(params@, home),
{
    let home = home_dir();
    start_call_in(params, as_slice_opt(&home))
}

/// What a call does, once its root is known.
#[derive(Debug, PartialEq)]
pub enum CallPlan {
    /// A synchronization, at its start.
    Sync(SyncRun),
    /// A search of the index for as many as `index_limit` results, of which
    /// `limit` are kept.
    Search { namespace: String, query: String, limit: usize, index_limit: usize },
    /// A document is read.
    Read { namespace: String, path: String },
    /// The index is asked for its counts.
    Status { namespace: String },
    /// The root is kept in the settings.
    Configure { namespace: String, write: SettingWrite },
}

/// What a plan is.
pub enum PlanView {
    Sync(RunView),
    Search(Seq<char>, Seq<char>, nat, nat),
    Read(Seq<char>, Seq<char>),
    Status(Seq<char>),
    Configure(Seq<char>, Seq<char>, Seq<char>, JsonView),
}

impl View for CallPlan {
    type V = PlanView;

    open spec fn view(&self) -> PlanView {
        match self {
            CallPlan::Sync(run) => PlanView::Sync(run@),
            CallPlan::Search { namespace, query, limit, index_limit } => PlanView::Search(
                namespace@,
                query@,
                *limit as nat,
                *index_limit as nat,
            ),
            CallPlan::Read { namespace, path } => PlanView::Read(namespace@, path@),
            CallPlan::Status { namespace } => PlanView::Status(namespace@),
            CallPlan::Configure { namespace, write } => PlanView::Configure(
                namespace@,
                write.owner@,
                write.key@,
                write.value@,
            ),
        }
    }
}

/// What the outcome of planning a call is.
pub open spec fn plan_outcome(r: Result<CallPlan, ToolError>) -> Result<PlanView, ErrorView> {
    match r {
        Ok(p) => Ok(p@),
        Err(e) => Err(e@),
    }
}

/// What a call does, once its root is known.
pub open spec fn call_plan(
    params: JsonView,
    mode: Mode,
    root: RootView,
    home: Option<Seq<u8>>,
) -> Result<PlanView, ErrorView> {
    match requested_namespace(params) {
        Err(e) => Err(e),
        Ok(ns) => match mode {
            Mode::Sync => match root_prefix(root, params.str_at("path"@), home) {
                Err(e) => Err(e),
                Ok(prefix) => Ok(
                    PlanView::Sync(
                        run_start(
                            root,
                            ns,
                            prefix,
                            params.get("force"@) matches Some(v) && v.as_bool() == Some(true),
                            home,
                        ),
                    ),
                ),
            },
            Mode::Search => match required_text(params, "query"@) {
                Err(e) => Err(e),
                Ok(query) => Ok(
                    PlanView::Search(
                        ns,
                        query,
                        requested_limit(params),
                        index_limit(requested_limit(params)),
                    ),
                ),
            },
            Mode::Read => match required_text(params, "path"@) {
                Err(e) => Err(e),
                Ok(raw) => match readable_path(root, raw, home) {
                    Err(e) => Err(e),
                    Ok(path) => Ok(PlanView::Read(ns, path)),
                },
            },
            Mode::Status => Ok(PlanView::Status(ns)),
            Mode::Configure => Ok(
                PlanView::Configure(
                    ns,
                    crate::knowledge_wiki::context::DEFAULT_KNOWLEDGE_WIKI_NAMESPACE@,
                    setting_key(ns),
                    JsonView::Text(root_setting(root)),
                ),
            ),
        },
    }
}

/// What a call does once its root is known, for the user with this home directory.
pub fn plan_call_in(params: &Json, mode: Mode, root: WikiRoot, home: Option<&[u8]>) -> (r: Result<
    CallPlan,
    ToolError,
>)
    ensures
        plan_outcome(r) == call_plan(params@, mode, root@, opt_slice(home)),
        r matches Ok(CallPlan::Sync(run)) ==> sound(run@),
{
    let namespace = match resolve_namespace(params) {
        Ok(n) => n,
        Err(e) => {
            return Err(e);
        },
    };
    match mode {
        Mode::Sync => match root.resolve_prefix_in(params.str_at("path"), home) {
            Err(e) => Err(e),
            Ok(prefix) => {
                let (run, _) = SyncRun::start_in(
                    root,
                    namespace.as_str(),
                    prefix.as_str(),
                    is_forced(params),
                    home,
                );
                Ok(CallPlan::Sync(run))
            },
        },
        Mode::Search => match require_str(params, "query") {
            Err(e) => Err(e),
            Ok(query) => {
                let (limit, index_limit) = search_limits(params);
                Ok(CallPlan::Search { namespace, query: query.to_owned(), limit, index_limit })
            },
        },
        Mode::Read => match require_str(params, "path") {
            Err(e) => Err(e),
            Ok(raw) => match read_path_in(&root, raw, home) {
                Err(e) => Err(e),
                Ok(path) => Ok(CallPlan::Read { namespace, path }),
            },
        },
        Mode::Status => Ok(CallPlan::Status { namespace }),
        Mode::Configure => {
            let write = setting_write(namespace.as_str(), &root);
            Ok(CallPlan::Configure { namespace, write })
        },
    }
}

/// What a call does, once its root is known.
pub fn plan_call(params: &Json, mode: Mode, root: WikiRoot) -> (r: Result<CallPlan, ToolError>)
    ensures
        exists|home: Option<Seq<u8>>|
            plan_outcome(r) == #[trigger] call_plan(params@, mode, root@, home),
        r matches Ok(CallPlan::Sync(run)) ==> sound(run@),
{
    let home = home_dir();
    plan_call_in(params, mode, root, as_slice_opt(&home))
}

/// A call that configures a root gives the root that it keeps in the settings:
/// its source is never the settings.
pub proof fn law_configured_roots_are_given(params: JsonView, home: Option<Seq<u8>>)
    requires
        call_start(params, home) matches Ok((Mode::Configure, _)),
    ensures
        call_start(params, home)->Ok_0.1 is Given,
{
}

/// A plan to read names a document that the root indexes.
pub proof fn law_planned_reads_are_indexed(
    params: JsonView,
    root: RootView,
    home: Option<Seq<u8>>,
)
    requires
        call_plan(params, Mode::Read, root, home) is Ok,
    ensures
        call_plan(params, Mode::Read, root, home) matches Ok(PlanView::Read(_, path))
            && crate::wiki_tool::root::root_indexes(root, path, home),
{
}

/// A call needs a query to search, a path to read and a root to configure. What it
/// asks for is done in its namespace and under its root: a synchronization goes
/// through what lies under the path that it names and is forced where it says so, a
/// search looks for its query, a read gives the document at its path, and a
/// configuration keeps the root under the setting of the namespace.
pub proof fn law_calls_do_what_they_ask(
    params: JsonView,
    mode: Mode,
    root: RootView,
    home: Option<Seq<u8>>,
    ns: Seq<char>,
)
    requires
        requested_namespace(params) == Ok::<Seq<char>, ErrorView>(ns),
    ensures
        match mode {
            Mode::Sync => match root_prefix(root, params.str_at("path"@), home) {
                Ok(prefix) => {
                    &&& call_plan(params, mode, root, home) matches Ok(PlanView::Sync(run))
                    &&& run.root == root && run.home == home && run.prefix == prefix
                    &&& run.document.namespace == ns && run.report.namespace == ns
                    &&& run.force <==> (params.get("force"@) == Some(JsonView::Bool(true)))
                    &&& run.paths.len() == 0 && run.next == 0
                },
                Err(e) => call_plan(params, mode, root, home) == Err::<PlanView, ErrorView>(e),
            },
            Mode::Search => match params.str_at("query"@) {
                Some(q) => call_plan(params, mode, root, home) == Ok::<PlanView, ErrorView>(
                    PlanView::Search(
                        ns,
                        q,
                        requested_limit(params),
                        index_limit(requested_limit(params)),
                    ),
                ),
                None => call_plan(params, mode, root, home) == Err::<PlanView, ErrorView>(
                    ErrorView::MissingParameter("query"@),
                ),
            },
            Mode::Read => match params.str_at("path"@) {
                Some(raw) => match readable_path(root, raw, home) {
                    Ok(p) => call_plan(params, mode, root, home) == Ok::<PlanView, ErrorView>(
                        PlanView::Read(ns, p),
                    ),
                    Err(e) => call_plan(params, mode, root, home) == Err::<PlanView, ErrorView>(e),
                },
                None => call_plan(params, mode, root, home) == Err::<PlanView, ErrorView>(
                    ErrorView::MissingParameter("path"@),
                ),
            },
            Mode::Status => call_plan(params, mode, root, home) == Ok::<PlanView, ErrorView>(
                PlanView::Status(ns),
            ),
            Mode::Configure => call_plan(params, mode, root, home) == Ok::<PlanView, ErrorView>(
                PlanView::Configure(
                    ns,
                    "global"@,
                    setting_key(ns),
                    JsonView::Text(root_setting(root)),
                ),
            ),
        },
{
}

/// A call begins with its mode and with where its root comes from, where it has what
/// its mode needs.
pub proof fn law_calls_need_what_their_mode_needs(params: JsonView, home: Option<Seq<u8>>)
    ensures
        match requested_mode(params) {
            Err(e) => call_start(params, home) == Err::<(Mode, RootSourceView), ErrorView>(e),
            Ok(mode) => {
                let lacks = (mode == Mode::Search && params.str_at("query"@) is None) || (mode
                    == Mode::Read && params.str_at("path"@) is None) || (mode == Mode::Configure
                    && params.str_at("wiki_root"@) is None);
                &&& lacks ==> call_start(params, home) is Err
                &&& !lacks ==> match root_source_of(params, home) {
                    Ok(s) => call_start(params, home) == Ok::<(Mode, RootSourceView), ErrorView>(
                        (mode, s),
                    ),
                    Err(e) => call_start(params, home) == Err::<(Mode, RootSourceView), ErrorView>(
                        e,
                    ),
                }
            },
        },
{
}

/// What the schema says of a parameter under a key.
pub open spec fn described(name: Seq<char>, key: Seq<char>) -> Option<Seq<char>> {
    match tool_schema().get("properties"@) {
        Some(properties) => match properties.get(name) {
            Some(property) => property.str_at(key),
            None => None,
        },
        None => None,
    }
}

/// The schema of the tool's parameters describes seven of them, each by its type and
/// in words. A call needs the mode, which is one of five; the rest may be missing.
pub proof fn law_parameters_are_described(name: Seq<char>)
    ensures
        tool_schema().str_at("type"@) == Some("object"@),
        tool_schema().get("required"@) == Some(JsonView::Array(seq![JsonView::Text("mode"@)])),
        described("mode"@, "type"@) == Some("string"@),
        described("mode"@, "description"@) == Some("Operation to run."@),
        (tool_schema().get("properties"@)->0).get("mode"@) is Some,
        (tool_schema().get("properties"@)->0).get("mode"@)->0.get("enum"@) == Some(
            JsonView::Array(
                seq![
                    JsonView::Text("sync"@),
                    JsonView::Text("search"@),
                    JsonView::Text("read"@),
                    JsonView::Text("status"@),
                    JsonView::Text("configure"@),
                ],
            ),
        ),
        described("path"@, "type"@) == Some("string"@),
        described("path"@, "description"@) == Some(
            "Path or prefix under the configured wiki root. For file roots, relative paths resolve under the file root."@,
        ),
        described("wiki_root"@, "type"@) == Some("string"@),
        described("wiki_root"@, "description"@) == Some(
            "Optional wiki root. Absolute paths and file: paths read local Markdown; workspace:<path> reads workspace Markdown. Bare relative paths are treated as workspace paths. Overrides the configured default for this call; configure mode persists it."@,
        ),
        described("namespace"@, "type"@) == Some("string"@),
        described("namespace"@, "description"@) == Some(
            "Knowledge wiki namespace. Defaults to global."@,
        ),
        described("query"@, "type"@) == Some("string"@),
        described("query"@, "description"@) == Some(
            "search mode query over chunk previews and SPO relation index."@,
        ),
        described("limit"@, "type"@) == Some("integer"@),
        described("limit"@, "description"@) == Some(
            "Maximum search hits, default 10, max 100."@,
        ),
        described("force"@, "type"@) == Some("boolean"@),
        described("force"@, "description"@) == Some(
            "sync mode: reindex even when content hash is unchanged."@,
        ),
        name != "mode"@ && name != "path"@ && name != "wiki_root"@ && name != "namespace"@ && name
            != "query"@ && name != "limit"@ && name != "force"@ ==> (tool_schema().get(
            "properties"@,
        )->0).get(name) is None,
{
    lemma_schema_keys();
    lemma_property_keys();
    lemma_parameter_names();
    let needed = seq!["mode"@].map_values(|x: Seq<char>| JsonView::Text(x));
    assert(needed =~= seq![JsonView::Text("mode"@)]);
    let modes = mode_names().map_values(|x: Seq<char>| JsonView::Text(x));
    assert(modes =~= seq![
        JsonView::Text("sync"@),
        JsonView::Text("search"@),
        JsonView::Text("read"@),
        JsonView::Text("status"@),
        JsonView::Text("configure"@),
    ]);
}

proof fn lemma_schema_keys()
    ensures
        "type"@ != "properties"@,
        "type"@ != "required"@,
        "properties"@ != "required"@,
{
    reveal_strlit("type");
    reveal_strlit("properties");
    reveal_strlit("required");
    assert("properties"@.len() == 10);
    assert("required"@.len() == 8);
    assert("type"@.len() == 4);
}

proof fn lemma_property_keys()
    ensures
        "type"@ != "description"@,
        "type"@ != "enum"@,
        "description"@ != "enum"@,
{
    reveal_strlit("type");
    reveal_strlit("description");
    reveal_strlit("enum");
    assert("description"@.len() == 11);
    assert("enum"@.len() == 4);
    assert("enum"@[0] == 'e');
    assert("type"@.len() == 4);
    assert("type"@[0] == 't');
}

proof fn lemma_parameter_names()
    ensures
        "mode"@ != "path"@,
        "mode"@ != "wiki_root"@,
        "mode"@ != "namespace"@,
        "mode"@ != "query"@,
        "mode"@ != "limit"@,
        "mode"@ != "force"@,
        "path"@ != "wiki_root"@,
        "path"@ != "namespace"@,
        "path"@ != "query"@,
        "path"@ != "limit"@,
        "path"@ != "force"@,
        "wiki_root"@ != "namespace"@,
        "wiki_root"@ != "query"@,
        "wiki_root"@ != "limit"@,
        "wiki_root"@ != "force"@,
        "namespace"@ != "query"@,
        "namespace"@ != "limit"@,
        "namespace"@ != "force"@,
        "query"@ != "limit"@,
        "query"@ != "force"@,
        "limit"@ != "force"@,
{
    reveal_strlit("mode");
    reveal_strlit("path");
    reveal_strlit("wiki_root");
    reveal_strlit("namespace");
    reveal_strlit("query");
    reveal_strlit("limit");
    reveal_strlit("force");
    assert("force"@.len() == 5);
    assert("force"@[0] == 'f');
    assert("limit"@.len() == 5);
    assert("limit"@[0] == 'l');
    assert("mode"@.len() == 4);
    assert("mode"@[0] == 'm');
    assert("namespace"@.len() == 9);
    assert("namespace"@[0] == 'n');
    assert("path"@.len() == 4);
    assert("path"@[0] == 'p');
    assert("query"@.len() == 5);
    assert("query"@[0] == 'q');
    assert("wiki_root"@.len() == 9);
    assert("wiki_root"@[0] == 'w');
}

} // verus!

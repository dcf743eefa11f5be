//! The parameters of a call of the tool.

use vstd::prelude::*;

use crate::json::{Json, JsonView};
use crate::knowledge_wiki::context::DEFAULT_KNOWLEDGE_WIKI_NAMESPACE;
use crate::text::{chars_of, concat3, contains_text, has_text, same_text};
use crate::text::{is_space, lemma_trim_ends, occurs_at, string_of, trim, trimmed};
use crate::wiki_tool::error::{text_outcome, ErrorView, ToolError};

verus! {

/// The setting under which the root of a namespace is kept.
pub const WIKI_ROOT_SETTING_KEY: &'static str = "knowledge_wiki.root";

/// What a call asks for.
#[derive(Clone, Copy, Debug, PartialEq, Eq, Structural)]
pub enum Mode {
    Sync,
    Search,
    Read,
    Status,
    Configure,
}

/// The text that a call must give under `name`.
pub open spec fn required_text(params: JsonView, name: Seq<char>) -> Result<
    Seq<char>,
    ErrorView,
> {
    match params.str_at(name) {
        Some(s) => Ok(s),
        None => Err(ErrorView::MissingParameter(name)),
    }
}

/// What a call asks for.
pub open spec fn requested_mode(params: JsonView) -> Result<Mode, ErrorView> {
    match required_text(params, "mode"@) {
        Err(e) => Err(e),
        Ok(mode) => if mode == "sync"@ {
            Ok(Mode::Sync)
        } else if mode == "search"@ {
            Ok(Mode::Search)
        } else if mode == "read"@ {
            Ok(Mode::Read)
        } else if mode == "status"@ {
            Ok(Mode::Status)
        } else if mode == "configure"@ {
            Ok(Mode::Configure)
        } else {
            Err(ErrorView::InvalidParameters("unknown knowledge_wiki mode `"@ + mode + "`"@))
        },
    }
}

/// The namespace that a call is about.
pub open spec fn requested_namespace(params: JsonView) -> Result<Seq<char>, ErrorView> {
    let n = trim(
        match params.str_at("namespace"@) {
            Some(s) => s,
            None => DEFAULT_KNOWLEDGE_WIKI_NAMESPACE@,
        },
    );
    if n.len() == 0 {
        Err(ErrorView::InvalidParameters("knowledge_wiki namespace cannot be empty"@))
    } else if contains_text(n, "/"@) || contains_text(n, "\\"@) || contains_text(n, ".."@) {
        Err(
            ErrorView::InvalidParameters(
                "knowledge_wiki namespace must not contain path separators or `..`"@,
            ),
        )
    } else {
        Ok(n)
    }
}

/// The key of the setting that keeps the root of a namespace.
pub open spec fn setting_key(namespace: Seq<char>) -> Seq<char> {
    WIKI_ROOT_SETTING_KEY@ + "."@ + namespace
}

/// How many results a search gives: ten, unless another number is asked for,
/// and never more than a hundred.
pub open spec fn requested_limit(params: JsonView) -> nat {
    let asked = match params.get("limit"@) {
        Some(v) => match v.as_u64() {
            Some(n) => n as nat,
            None => 10,
        },
        None => 10,
    };
    if asked <= 100 {
        asked
    } else {
        100
    }
}

/// How many results the index is asked for: five times as many, since some
/// will lie under other roots, but never more than a hundred.
pub open spec fn index_limit(limit: nat) -> nat {
    if 5 * limit <= 100 {
        5 * limit
    } else {
        100
    }
}

/// About how many tokens a text takes: a quarter of its characters, rounded up.
pub open spec fn token_estimate(chars: nat) -> nat {
    let n = (chars + 3) / 4;
    if n <= i32::MAX {
        n
    } else {
        i32::MAX as nat
    }
}

/// What the outcome of reading the mode is.
pub open spec fn mode_outcome(r: Result<Mode, ToolError>) -> Result<Mode, ErrorView> {
    match r {
        Ok(m) => Ok(m),
        Err(e) => Err(e@),
    }
}

/// What the outcome of reading a text parameter is.
pub open spec fn str_outcome(r: Result<&str, ToolError>) -> Result<Seq<char>, ErrorView> {
    match r {
        Ok(s) => Ok(s@),
        Err(e) => Err(e@),
    }
}

/// The text that a call must give under `name`.
pub fn require_str<'a>(params: &'a Json, name: &str) -> (r: Result<&'a str, ToolError>)
    ensures
        str_outcome(r) == required_text(params@, name@),
{
    match params.str_at(name) {
        Some(s) => Ok(s),
        None => Err(ToolError::MissingParameter(name.to_owned())),
    }
}

/// What a call asks for.
pub fn parse_mode(params: &Json) -> (r: Result<Mode, ToolError>)
    ensures
        mode_outcome(r) == requested_mode(params@),
{
    let mode = match require_str(params, "mode") {
        Ok(m) => m,
        Err(e) => {
            return Err(e);
        },
    };
    if same_text(mode, "sync") {
        Ok(Mode::Sync)
    } else if same_text(mode, "search") {
        Ok(Mode::Search)
    } else if same_text(mode, "read") {
        Ok(Mode::Read)
    } else if same_text(mode, "status") {
        Ok(Mode::Status)
    } else if same_text(mode, "configure") {
        Ok(Mode::Configure)
    } else {
        Err(ToolError::InvalidParameters(concat3("unknown knowledge_wiki mode `", mode, "`")))
    }
}

/// The namespace that a call is about.
pub fn resolve_namespace(params: &Json) -> (r: Result<String, ToolError>)
    ensures
        text_outcome(r) == requested_namespace(params@),
{
    let raw = match params.str_at("namespace") {
        Some(s) => chars_of(s),
        None => chars_of(DEFAULT_KNOWLEDGE_WIKI_NAMESPACE),
    };
    let n = trimmed(raw.as_slice());
    if n.len() == 0 {
        return Err(
            ToolError::InvalidParameters("knowledge_wiki namespace cannot be empty".to_owned()),
        );
    }
    if has_text(n, "/") || has_text(n, "\\") || has_text(n, "..") {
        return Err(
            ToolError::InvalidParameters(
                "knowledge_wiki namespace must not contain path separators or `..`".to_owned(),
            ),
        );
    }
    Ok(string_of(n))
}

/// The key of the setting that keeps the root of a namespace.
pub fn root_setting_key(namespace: &str) -> (r: String)
    ensures
        r@ == setting_key(namespace@),
{
    concat3(WIKI_ROOT_SETTING_KEY, ".", namespace)
}

/// How many results a search gives, and how many the index is asked for.
pub fn search_limits(params: &Json) -> (r: (usize, usize))
    ensures
        r.0 == requested_limit(params@),
        r.1 == index_limit(requested_limit(params@)),
{
    let asked: u64 = match params.get("limit") {
        Some(v) => match v.as_u64() {
            Some(n) => n,
            None => 10,
        },
        None => 10,
    };
    let limit: usize = if asked <= 100 {
        asked as usize
    } else {
        100
    };
    let raw: usize = if 5 * limit <= 100 {
        5 * limit
    } else {
        100
    };
    (limit, raw)
}

/// Whether a synchronization takes up documents that have not changed.
pub fn is_forced(params: &Json) -> (r: bool)
    ensures
        r == (params@.get("force"@) matches Some(v) && v.as_bool() == Some(true)),
{
    match params.get("force") {
        Some(v) => match v.as_bool() {
            Some(b) => b,
            None => false,
        },
        None => false,
    }
}

/// About how many tokens a text takes.
pub fn approx_tokens(text: &str) -> (r: i32)
    ensures
        r == token_estimate(text@.len()),
{
    let n: usize = chars_of(text).len();
    let tokens: u128 = (n as u128 + 3) / 4;
    if tokens <= i32::MAX as u128 {
        tokens as i32
    } else {
        i32::MAX
    }
}

/// A namespace is not empty, has no white space around it, and holds nothing that
/// could lead out of a directory.
pub proof fn law_namespaces_are_plain(params: JsonView)
    requires
        requested_namespace(params) is Ok,
    ensures
        ({
            let n = requested_namespace(params)->Ok_0;
            &&& n.len() > 0 && !is_space(n.first()) && !is_space(n.last())
            &&& !n.contains('/') && !n.contains('\\')
            &&& !contains_text(n, ".."@)
        }),
{
    let raw = match params.str_at("namespace"@) {
        Some(s) => s,
        None => DEFAULT_KNOWLEDGE_WIKI_NAMESPACE@,
    };
    let n = trim(raw);
    lemma_trim_ends(raw);
    reveal_strlit("/");
    reveal_strlit("\\");
    assert forall|i: int| 0 <= i < n.len() implies n[i] != '/' && n[i] != '\\' by {
        assert(n.subrange(i, i + 1) =~= seq![n[i]]);
        if n[i] == '/' {
            assert("/"@ =~= seq!['/']);
            assert(occurs_at(n, "/"@, i));
        }
        if n[i] == '\\' {
            assert("\\"@ =~= seq!['\\']);
            assert(occurs_at(n, "\\"@, i));
        }
    }
}

/// No more results are asked of the index than a hundred, and no fewer than
/// the search gives.
pub proof fn law_index_limit_covers_the_search(params: JsonView)
    ensures
        requested_limit(params) <= index_limit(requested_limit(params)) <= 100,
{
}

/// The five modes go by their names; a call without a mode lacks a parameter, and
/// one with another word for it is not accepted.
pub proof fn law_modes_go_by_their_names(params: JsonView)
    ensures
        params.str_at("mode"@) == Some("sync"@) ==> requested_mode(params) == Ok::<Mode, ErrorView>(
            Mode::Sync,
        ),
        params.str_at("mode"@) == Some("search"@) ==> requested_mode(params) == Ok::<
            Mode,
            ErrorView,
        >(Mode::Search),
        params.str_at("mode"@) == Some("read"@) ==> requested_mode(params) == Ok::<Mode, ErrorView>(
            Mode::Read,
        ),
        params.str_at("mode"@) == Some("status"@) ==> requested_mode(params) == Ok::<
            Mode,
            ErrorView,
        >(Mode::Status),
        params.str_at("mode"@) == Some("configure"@) ==> requested_mode(params) == Ok::<
            Mode,
            ErrorView,
        >(Mode::Configure),
        params.str_at("mode"@) is None ==> requested_mode(params) == Err::<Mode, ErrorView>(
            ErrorView::MissingParameter("mode"@),
        ),
        params.str_at("mode"@) matches Some(m) ==> m != "sync"@ && m != "search"@ && m != "read"@
            && m != "status"@ && m != "configure"@ ==> requested_mode(params) == Err::<
            Mode,
            ErrorView,
        >(ErrorView::InvalidParameters("unknown knowledge_wiki mode `"@ + m + "`"@)),
{
    lemma_modes_apart();
}

/// The namespace of a call is the one that it names, without white space around it,
/// or `global`; each namespace has a setting of its own.
pub proof fn law_namespaces_are_named(params: JsonView, other: Seq<char>)
    ensures
        params.str_at("namespace"@) is None ==> requested_namespace(params) == Ok::<
            Seq<char>,
            ErrorView,
        >("global"@),
        params.str_at("namespace"@) matches Some(n) ==> {
            let t = trim(n);
            let plain = t.len() > 0 && !contains_text(t, "/"@) && !contains_text(t, "\\"@)
                && !contains_text(t, ".."@);
            &&& plain ==> requested_namespace(params) == Ok::<Seq<char>, ErrorView>(t)
            &&& !plain ==> requested_namespace(params) is Err
        },
        setting_key(other) == "knowledge_wiki.root."@ + other,
{
    reveal_strlit("global");
    reveal_strlit("/");
    reveal_strlit("\\");
    reveal_strlit("..");
    reveal_strlit(".");
    reveal_strlit("knowledge_wiki.root");
    reveal_strlit("knowledge_wiki.root.");
    let g = "global"@;
    crate::text::lemma_trim_clean(g);
    assert forall|p: Seq<char>, i: int| p == "/"@ || p == "\\"@ || p == ".."@ implies !occurs_at(
        g,
        p,
        i,
    ) by {
        if occurs_at(g, p, i) {
            assert(g.subrange(i, i + p.len())[0] == p[0]);
            assert(g[i] == p[0]);
        }
    }
    assert("knowledge_wiki.root"@ + "."@ =~= "knowledge_wiki.root."@);
}

/// A search gives ten results unless another number is asked for, and never more
/// than a hundred; the index is asked for five times as many, and for a hundred at
/// most.
pub proof fn law_search_limits(params: JsonView, n: u64)
    ensures
        params.get("limit"@) is None ==> requested_limit(params) == 10,
        params.get("limit"@) matches Some(v) ==> v.as_u64() == Some(n) ==> requested_limit(params)
            == if n < 100 {
            n as int
        } else {
            100
        },
        params.get("limit"@) matches Some(v) ==> v.as_u64() is None ==> requested_limit(params)
            == 10,
        index_limit(n as nat) == if n < 20 {
            5 * n
        } else {
            100
        },
{
}

/// A text takes about a token for every four characters begun.
pub proof fn law_token_estimates(n: nat)
    ensures
        n <= 4 * 0x7fff_ffff ==> 4 * token_estimate(n) - 4 < n <= 4 * token_estimate(n),
        n > 4 * 0x7fff_ffff ==> token_estimate(n) == 0x7fff_ffff,
{
}

/// A parameter that is needed is the text under its name, or is missing.
pub proof fn law_needed_texts(params: JsonView, name: Seq<char>)
    ensures
        params.str_at(name) matches Some(s) ==> required_text(params, name) == Ok::<
            Seq<char>,
            ErrorView,
        >(s),
        params.str_at(name) is None ==> required_text(params, name) == Err::<Seq<char>, ErrorView>(
            ErrorView::MissingParameter(name),
        ),
{
}

proof fn lemma_modes_apart()
    ensures
        "sync"@ != "search"@,
        "sync"@ != "read"@,
        "sync"@ != "status"@,
        "sync"@ != "configure"@,
        "search"@ != "read"@,
        "search"@ != "status"@,
        "search"@ != "configure"@,
        "read"@ != "status"@,
        "read"@ != "configure"@,
        "status"@ != "configure"@,
{
    reveal_strlit("sync");
    reveal_strlit("search");
    reveal_strlit("read");
    reveal_strlit("status");
    reveal_strlit("configure");
    assert("configure"@.len() == 9);
    assert("read"@.len() == 4);
    assert("read"@[0] == 'r');
    assert("search"@.len() == 6);
    assert("search"@[1] == 'e');
    assert("status"@.len() == 6);
    assert("status"@[1] == 't');
    assert("sync"@.len() == 4);
    assert("sync"@[0] == 's');
}

/// A namespace that is refused is refused with the reason, and a setting goes by its
/// namespace.
pub proof fn law_namespaces_are_refused_with_the_reason(params: JsonView, namespace: Seq<char>)
    ensures
        params.str_at("namespace"@) matches Some(s) ==> {
            let n = trim(s);
            let parted = contains_text(n, "/"@) || contains_text(n, "\\"@) || contains_text(n, ".."@);
            &&& n.len() == 0 ==> requested_namespace(params) == Err::<Seq<char>, ErrorView>(
                ErrorView::InvalidParameters("knowledge_wiki namespace cannot be empty"@),
            )
            &&& n.len() > 0 && parted ==> requested_namespace(params) == Err::<
                Seq<char>,
                ErrorView,
            >(
                ErrorView::InvalidParameters(
                    "knowledge_wiki namespace must not contain path separators or `..`"@,
                ),
            )
            &&& n.len() > 0 && !parted ==> requested_namespace(params) == Ok::<
                Seq<char>,
                ErrorView,
            >(n)
        },
        setting_key(namespace) == "knowledge_wiki.root."@ + namespace,
{
    reveal_strlit("knowledge_wiki.root");
    reveal_strlit(".");
    reveal_strlit("knowledge_wiki.root.");
    assert("knowledge_wiki.root"@ + "."@ =~= "knowledge_wiki.root."@);
}

} // verus!

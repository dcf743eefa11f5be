//! The provider: what it sends, and what it makes of the answers.

use vstd::prelude::*;
use vstd::utf8::encode_utf8;

use crate::json::{items_view, lemma_items_view, Json, JsonView};
use crate::json_text::parsed;
use crate::openai_responses::headers::{accepted, copy_headers, gather_headers, gather_within};
use crate::openai_responses::headers::{has_many, header_entries, header_pairs, insert_header};
use crate::openai_responses::headers::{is_header_name, is_header_value, lower_name, HeaderFault};
use crate::openai_responses::input::{body_of, build_request_body, opt_json, sanitize_tool_name};
use crate::openai_responses::input::tool_name;
use crate::openai_responses::stream::{parse_sse_response, parsed_outcome, stream_outcome};
use crate::openai_responses::types::{call_views, message_views, tool_views, CallView, ChatMessage};
use crate::openai_responses::types::{FinishReason, LlmError, LlmErrorView, ParsedResponse};
use crate::openai_responses::types::{ResponseView, RetryDelay, ToolCall, ToolDefinition, ToolView};
use crate::text::{ascii_lower, chars_of, concat2, concat3, lowered, opt_str, opt_text};
use crate::text::{same_text, string_of, strip_leading, strip_trailing, texts, without_leading};
use crate::text::without_trailing;

verus! {

/// A decimal number.
#[verifier::external_type_specification]
#[verifier::external_body]
pub struct ExDecimal(rust_decimal::Decimal);

/// How a provider is set up.
#[derive(Debug)]
pub struct RegistryProviderConfig {
    pub provider_id: String,
    pub model: String,
    pub api_key: Option<String>,
    pub extra_headers: Vec<(String, String)>,
    pub unsupported_params: Vec<String>,
}

/// How many headers a provider may add of its own: with those that every request
/// has, the map of headers still takes them in.
pub const MOST_EXTRA_HEADERS: usize = 6550;

/// A provider.
#[derive(Debug)]
pub struct OpenAiResponsesProvider {
    pub provider_id: String,
    pub base_url: String,
    pub model: String,
    pub api_key: Option<String>,
    pub extra_headers: reqwest::header::HeaderMap,
    pub unsupported_params: Vec<String>,
    pub input_cost: rust_decimal::Decimal,
    pub output_cost: rust_decimal::Decimal,
}

/// The texts of a list, each once, where it first stands.
pub open spec fn each_once(s: Seq<Seq<char>>) -> Seq<Seq<char>>
    decreases s.len(),
{
    if s.len() == 0 {
        seq![]
    } else {
        let front = each_once(s.drop_last());
        if front.contains(s.last()) {
            front
        } else {
            front.push(s.last())
        }
    }
}

/// The texts of a list, each once, are the texts of the list.
pub proof fn law_each_once_keeps_the_texts(s: Seq<Seq<char>>)
    ensures
        each_once(s).no_duplicates(),
        forall|x: Seq<char>| #[trigger] each_once(s).contains(x) <==> s.contains(x),
    decreases s.len(),
{
    if s.len() > 0 {
        let front = s.drop_last();
        law_each_once_keeps_the_texts(front);
        let f = each_once(front);
        assert forall|x: Seq<char>| #[trigger] each_once(s).contains(x) <==> s.contains(x) by {
            if s.contains(x) {
                let i = choose|i: int| 0 <= i < s.len() && s[i] == x;
                if i < s.len() - 1 {
                    assert(front[i] == x);
                    assert(f.contains(x));
                    let j = choose|j: int| 0 <= j < f.len() && f[j] == x;
                    assert(each_once(s)[j] == x);
                } else if !f.contains(x) {
                    assert(each_once(s)[f.len() as int] == x);
                }
            }
            if each_once(s).contains(x) {
                let j = choose|j: int| 0 <= j < each_once(s).len() && each_once(s)[j] == x;
                if j < f.len() {
                    assert(f[j] == x);
                    assert(f.contains(x));
                    let i = choose|i: int| 0 <= i < front.len() && front[i] == x;
                    assert(s[i] == x);
                } else {
                    assert(s[s.len() - 1] == x);
                }
            }
        }
    }
}

fn holds(v: &Vec<String>, x: &str) -> (r: bool)
    ensures
        r == texts(v@).contains(x@),
{
    let ghost all = texts(v@);
    let mut i: usize = 0;
    while i < v.len()
        invariant
            i <= v@.len(),
            all == texts(v@),
            forall|j: int| 0 <= j < i ==> #[trigger] all[j] != x@,
        decreases v@.len() - i,
    {
        assert(all[i as int] == v@[i as int]@);
        if same_text(v[i].as_str(), x) {
            return true;
        }
        i += 1;
    }
    false
}

fn once_each(v: &Vec<String>) -> (r: Vec<String>)
    ensures
        texts(r@) == each_once(texts(v@)),
{
    let ghost all = texts(v@);
    let mut out: Vec<String> = Vec::new();
    let mut i: usize = 0;
    assert(texts(out@) =~= each_once(all.take(0)));
    while i < v.len()
        invariant
            i <= v@.len(),
            all == texts(v@),
            texts(out@) == each_once(all.take(i as int)),
        decreases v@.len() - i,
    {
        assert(all.take(i + 1).drop_last() == all.take(i as int));
        assert(all.take(i + 1).last() == v@[i as int]@);
        if !holds(&out, v[i].as_str()) {
            let ghost before = out@;
            out.push(v[i].clone());
            assert(texts(out@) =~= texts(before).push(v@[i as int]@));
        }
        i += 1;
    }
    assert(all.take(all.len() as int) == all);
    out
}

/// The address of a path under a base address.
pub open spec fn address_of(base: Seq<char>, path: Seq<char>) -> Seq<char> {
    strip_trailing(base, '/') + "/"@ + strip_leading(path, '/')
}

/// Whether a text holds only visible ASCII characters, spaces and tabs.
pub open spec fn is_visible(s: Seq<char>) -> bool {
    forall|i: int|
        0 <= i < s.len() ==> ('\u{20}' <= #[trigger] s[i] && s[i] < '\u{7f}') || s[i] == '\t'
}

/// The value of the header that authorizes a request.
pub open spec fn bearer(key: Seq<char>) -> Seq<char> {
    "Bearer "@ + key
}

/// The headers that every request has, among others.
pub open spec fn usual_headers(m: Map<Seq<char>, Seq<u8>>, accept: Seq<char>) -> Map<
    Seq<char>,
    Seq<u8>,
> {
    m.insert("content-type"@, encode_utf8("application/json"@)).insert(
        "accept"@,
        encode_utf8(accept),
    )
}

/// The headers of a request, or why it cannot have them.
pub open spec fn headers_of(
    provider: Seq<char>,
    extra: Map<Seq<char>, Seq<u8>>,
    api_key: Option<Seq<char>>,
    accept: Seq<char>,
) -> Result<Map<Seq<char>, Seq<u8>>, LlmErrorView> {
    let usual = usual_headers(extra, accept);
    match api_key {
        None => Ok(usual),
        Some(key) => if is_header_value(bearer(key)) {
            Ok(usual.insert("authorization"@, encode_utf8(bearer(key))))
        } else {
            Err(
                LlmErrorView::RequestFailed(
                    provider,
                    "Invalid API key header value: failed to parse header value"@,
                ),
            )
        },
    }
}

/// What the outcome of making headers is.
pub open spec fn headers_outcome(r: Result<reqwest::header::HeaderMap, LlmError>) -> Result<
    Map<Seq<char>, Seq<u8>>,
    LlmErrorView,
> {
    match r {
        Ok(h) => Ok(header_entries(h)),
        Err(e) => Err(e@),
    }
}

proof fn lemma_usual_names()
    ensures
        is_header_name("content-type"@),
        is_header_name("accept"@),
        is_header_name("authorization"@),
        is_header_value("application/json"@),
        lower_name("content-type"@) == "content-type"@,
        lower_name("accept"@) == "accept"@,
        lower_name("authorization"@) == "authorization"@,
{
    reveal_strlit("content-type");
    reveal_strlit("accept");
    reveal_strlit("authorization");
    reveal_strlit("application/json");
    assert(lower_name("content-type"@) =~= "content-type"@);
    assert(lower_name("accept"@) =~= "accept"@);
    assert(lower_name("authorization"@) =~= "authorization"@);
}

/// The headers that every request has are not replaced by those that a provider
/// adds.
pub proof fn law_usual_headers_stand(
    provider: Seq<char>,
    extra: Map<Seq<char>, Seq<u8>>,
    api_key: Option<Seq<char>>,
    accept: Seq<char>,
)
    requires
        headers_of(provider, extra, api_key, accept) is Ok,
    ensures
        ({
            let m = headers_of(provider, extra, api_key, accept)->Ok_0;
            &&& m.dom().contains("content-type"@) && m["content-type"@] == encode_utf8(
                "application/json"@,
            )
            &&& m.dom().contains("accept"@) && m["accept"@] == encode_utf8(accept)
            &&& api_key matches Some(key) ==> m.dom().contains("authorization"@)
                && m["authorization"@] == encode_utf8(bearer(key))
        }),
{
    reveal_strlit("content-type");
    reveal_strlit("accept");
    reveal_strlit("authorization");
    assert("content-type"@[0] == 'c' && "accept"@[0] == 'a' && "authorization"@[0] == 'a');
    assert("accept"@[1] == 'c' && "authorization"@[1] == 'u');
}

/// What came of sending a request.
#[derive(Debug, PartialEq)]
pub enum HttpReply {
    /// It could not be sent, for this reason.
    NotSent(String),
    /// It was answered with a status that is no success. `status_text` is the
    /// status in full, `preview` the start of what was said, and `used` and
    /// `limit` the numbers of tokens that it names.
    Refused {
        status: u16,
        status_text: String,
        preview: String,
        retry_after: Option<RetryDelay>,
        used: usize,
        limit: usize,
    },
    /// The answer could not be read, for this reason.
    Unreadable(String),
    Body(String),
}

/// The error for an answer whose status is no success.
pub open spec fn refusal(
    provider: Seq<char>,
    status: u16,
    status_text: Seq<char>,
    preview: Seq<char>,
    retry_after: Option<RetryDelay>,
    used: usize,
    limit: usize,
) -> LlmErrorView {
    if status == 401 {
        LlmErrorView::AuthFailed(provider)
    } else if status == 429 {
        LlmErrorView::RateLimited(provider, retry_after)
    } else if status == 413 {
        LlmErrorView::ContextLengthExceeded(used, limit)
    } else if 500 <= status <= 599 {
        LlmErrorView::BadGateway(provider, status, retry_after)
    } else {
        LlmErrorView::RequestFailed(provider, "HTTP "@ + status_text + ": "@ + preview)
    }
}

/// What a model said, or why it said nothing.
pub open spec fn reply_outcome(provider: Seq<char>, reply: HttpReply) -> Result<
    ResponseView,
    LlmErrorView,
> {
    match reply {
        HttpReply::NotSent(e) => Err(
            LlmErrorView::RequestFailed(provider, "HTTP request failed: "@ + e@),
        ),
        HttpReply::Refused { status, status_text, preview, retry_after, used, limit } => Err(
            refusal(provider, status, status_text@, preview@, retry_after, used, limit),
        ),
        HttpReply::Unreadable(e) => Err(
            LlmErrorView::RequestFailed(provider, "Failed to read response body: "@ + e@),
        ),
        HttpReply::Body(body) => stream_outcome(provider, body@),
    }
}

/// What came of asking for the models.
#[derive(Debug, PartialEq)]
pub enum ModelsReply {
    /// The request could not be sent, for this reason.
    NotSent(String),
    /// The answer could not be read, for this reason.
    Unreadable(String),
    /// It was answered with a status that is no success, and this start of a text.
    Refused { status_text: String, preview: String },
    Body(String),
}

/// The name that a value gives a model.
pub open spec fn model_id(v: JsonView) -> Option<Seq<char>> {
    let id = match v.get("id"@) {
        Some(x) => Some(x),
        None => match v.get("name"@) {
            Some(x) => Some(x),
            None => v.get("model"@),
        },
    };
    match id {
        Some(x) => x.as_str(),
        None => None,
    }
}

/// The names that a list of values gives models, without those that give none.
pub open spec fn model_ids(s: Seq<JsonView>) -> Seq<Seq<char>>
    decreases s.len(),
{
    if s.len() == 0 {
        seq![]
    } else {
        let front = model_ids(s.drop_last());
        match model_id(s.last()) {
            Some(id) => front.push(id),
            None => front,
        }
    }
}

/// The names of the models that a value lists.
pub open spec fn listed_models(v: JsonView) -> Seq<Seq<char>> {
    let list = match v.get("data"@) {
        Some(x) => Some(x),
        None => v.get("models"@),
    };
    match list {
        Some(JsonView::Array(items)) => model_ids(items),
        _ => seq![],
    }
}

/// The names of the models, or why they cannot be had.
pub open spec fn models_outcome(provider: Seq<char>, reply: ModelsReply) -> Result<
    Seq<Seq<char>>,
    LlmErrorView,
> {
    match reply {
        ModelsReply::NotSent(e) => Err(
            LlmErrorView::RequestFailed(provider, "Failed to fetch models: "@ + e@),
        ),
        ModelsReply::Unreadable(e) => Err(
            LlmErrorView::RequestFailed(provider, "Failed to read models response: "@ + e@),
        ),
        ModelsReply::Refused { status_text, preview } => Err(
            LlmErrorView::RequestFailed(
                provider,
                "Models endpoint returned HTTP "@ + status_text@ + ": "@ + preview@,
            ),
        ),
        ModelsReply::Body(body) => match parsed(body@) {
            Ok(v) => Ok(listed_models(v)),
            Err(e) => Err(LlmErrorView::Json(e)),
        },
    }
}

/// What the outcome of asking for names is.
pub open spec fn ids_outcome(r: Result<Vec<String>, LlmError>) -> Result<
    Seq<Seq<char>>,
    LlmErrorView,
> {
    match r {
        Ok(v) => Ok(texts(v@)),
        Err(e) => Err(e@),
    }
}

fn id_of<'a>(v: &'a Json) -> (r: Option<&'a str>)
    ensures
        opt_str(r) == model_id(v@),
{
    let id = match v.get("id") {
        Some(x) => Some(x),
        None => match v.get("name") {
            Some(x) => Some(x),
            None => v.get("model"),
        },
    };
    match id {
        Some(x) => x.as_str(),
        None => None,
    }
}

/// The names of the models that a value lists.
pub fn extract_model_ids(value: &Json) -> (r: Vec<String>)
    ensures
        texts(r@) == listed_models(value@),
{
    let list = match value.get("data") {
        Some(x) => Some(x),
        None => value.get("models"),
    };
    let mut out: Vec<String> = Vec::new();
    assert(texts(out@) =~= Seq::<Seq<char>>::empty());
    if let Some(Json::Array(items)) = list {
        let ghost all = items_view(items@);
        proof {
            lemma_items_view(items@);
        }
        let mut i: usize = 0;
        assert(texts(out@) =~= model_ids(all.take(0)));
        while i < items.len()
            invariant
                i <= items@.len(),
                all.len() == items@.len(),
                forall|k: int| 0 <= k < items@.len() ==> all[k] == (#[trigger] items@[k])@,
                texts(out@) == model_ids(all.take(i as int)),
            decreases items@.len() - i,
        {
            assert(all.take(i + 1).drop_last() == all.take(i as int));
            assert(all.take(i + 1).last() == items@[i as int]@);
            if let Some(id) = id_of(&items[i]) {
                let ghost before = out@;
                out.push(id.to_owned());
                assert(texts(out@) =~= texts(before).push(id@));
            }
            i += 1;
        }
        assert(all.take(all.len() as int) == all);
    }
    out
}

/// A text with its ASCII letters in lower case.
pub open spec fn lower_text(s: Seq<char>) -> Seq<char> {
    s.map_values(|c: char| ascii_lower(c))
}

/// The text in which the numbers of tokens are looked for when a request was too
/// long.
pub fn token_count_text(body: &str) -> (r: String)
    ensures
        r@ == lower_text(body@),
{
    let chars = chars_of(body);
    let mut out: Vec<char> = Vec::new();
    let mut i: usize = 0;
    while i < chars.len()
        invariant
            i <= chars@.len(),
            chars@ == body@,
            out@ == lower_text(body@).take(i as int),
        decreases chars@.len() - i,
    {
        out.push(lowered(chars[i]));
        i += 1;
        assert(out@ =~= lower_text(body@).take(i as int));
    }
    assert(out@ =~= lower_text(body@));
    string_of(out.as_slice())
}

/// A completion.
#[derive(Debug, PartialEq)]
pub struct CompletionResponse {
    pub content: String,
    pub input_tokens: u32,
    pub output_tokens: u32,
    pub finish_reason: FinishReason,
    pub cache_read_input_tokens: u32,
    pub cache_creation_input_tokens: u32,
}

/// A completion that may call tools.
#[derive(Debug, PartialEq)]
pub struct ToolCompletionResponse {
    pub content: Option<String>,
    pub tool_calls: Vec<ToolCall>,
    pub input_tokens: u32,
    pub output_tokens: u32,
    pub finish_reason: FinishReason,
    pub cache_read_input_tokens: u32,
    pub cache_creation_input_tokens: u32,
    pub reasoning: Option<String>,
}

/// What is known of a model.
#[derive(Debug, PartialEq)]
pub struct ModelMetadata {
    pub id: String,
    pub context_length: Option<u32>,
}

/// The completion that a response is.
pub fn completion(parsed: ParsedResponse) -> (r: CompletionResponse)
    ensures
        r.content@ == parsed@.text_content,
        r.input_tokens == parsed.input_tokens,
        r.output_tokens == parsed.output_tokens,
        r.finish_reason == parsed.finish_reason,
        r.cache_read_input_tokens == 0,
        r.cache_creation_input_tokens == 0,
{
    CompletionResponse {
        content: parsed.text_content,
        input_tokens: parsed.input_tokens,
        output_tokens: parsed.output_tokens,
        finish_reason: parsed.finish_reason,
        cache_read_input_tokens: 0,
        cache_creation_input_tokens: 0,
    }
}

/// The tool's own name for the one that the service calls it by: that of the last
/// tool that had to be renamed to it.
pub open spec fn own_name(tools: Seq<ToolView>, name: Seq<char>) -> Seq<char>
    decreases tools.len(),
{
    if tools.len() == 0 {
        name
    } else {
        let own = tools.last().name;
        if tool_name(own) == name && own != name {
            own
        } else {
            own_name(tools.drop_last(), name)
        }
    }
}

/// A call under the tool's own name.
pub open spec fn renamed(tools: Seq<ToolView>, call: CallView) -> CallView {
    CallView { name: own_name(tools, call.name), ..call }
}

/// Calls under the tools' own names.
pub open spec fn all_renamed(tools: Seq<ToolView>, calls: Seq<CallView>) -> Seq<CallView> {
    calls.map_values(|c: CallView| renamed(tools, c))
}

fn restore_name(tools: &Vec<ToolDefinition>, name: &str) -> (r: String)
    ensures
        r@ == own_name(tool_views(tools@), name@),
{
    let ghost all = tool_views(tools@);
    let mut n: usize = tools.len();
    assert(all.take(n as int) =~= all);
    while n > 0
        invariant
            n <= tools@.len(),
            all == tool_views(tools@),
            own_name(all.take(n as int), name@) == own_name(all, name@),
        decreases n,
    {
        assert(all.take(n as int).drop_last() =~= all.take(n - 1));
        assert(all.take(n as int).last() == tools@[n - 1]@);
        n -= 1;
        let own = tools[n].name.as_str();
        let sent = sanitize_tool_name(own);
        if same_text(sent.as_str(), name) && !same_text(own, name) {
            return own.to_owned();
        }
    }
    name.to_owned()
}

fn restore_names(tools: &Vec<ToolDefinition>, calls: Vec<ToolCall>) -> (r: Vec<ToolCall>)
    ensures
        call_views(r@) == all_renamed(tool_views(tools@), call_views(calls@)),
{
    let ghost all = all_renamed(tool_views(tools@), call_views(calls@));
    let mut out: Vec<ToolCall> = Vec::new();
    assert(call_views(out@) =~= all.take(0));
    for call in it: calls
        invariant
            it.seq() == calls@,
            all == all_renamed(tool_views(tools@), call_views(calls@)),
            call_views(out@) == all.take(it.index() as int),
    {
        let ghost i = it.index() as int;
        let ghost before = out@;
        assert(call_views(calls@)[i] == call@);
        assert(all[i] == renamed(tool_views(tools@), call@));
        let name = restore_name(tools, call.name.as_str());
        let mut own = call;
        own.name = name;
        assert(own@ == all[i]);
        out.push(own);
        assert(call_views(out@) =~= call_views(before).push(own@));
        assert(call_views(out@) =~= all.take(i + 1));
    }
    assert(all.len() == calls@.len());
    assert(call_views(out@) =~= all);
    out
}

/// The completion that a response is, with its calls under the tools' own names.
pub fn tool_completion(tools: &Vec<ToolDefinition>, parsed: ParsedResponse) -> (r:
    ToolCompletionResponse)
    ensures
        opt_text(r.content) == if parsed@.text_content.len() > 0 {
            Some(parsed@.text_content)
        } else {
            None
        },
        call_views(r.tool_calls@) == all_renamed(tool_views(tools@), parsed@.tool_calls),
        r.input_tokens == parsed.input_tokens,
        r.output_tokens == parsed.output_tokens,
        r.finish_reason == if parsed@.tool_calls.len() == 0 {
            parsed.finish_reason
        } else {
            FinishReason::ToolUse
        },
        r.cache_read_input_tokens == 0,
        r.cache_creation_input_tokens == 0,
        r.reasoning is None,
{
    assert(call_views(parsed.tool_calls@).len() == parsed.tool_calls@.len());
    let finish_reason = if parsed.tool_calls.len() == 0 {
        parsed.finish_reason
    } else {
        FinishReason::ToolUse
    };
    let content = if chars_of(parsed.text_content.as_str()).len() > 0 {
        Some(parsed.text_content)
    } else {
        None
    };
    ToolCompletionResponse {
        content,
        tool_calls: restore_names(tools, parsed.tool_calls),
        input_tokens: parsed.input_tokens,
        output_tokens: parsed.output_tokens,
        finish_reason,
        cache_read_input_tokens: 0,
        cache_creation_input_tokens: 0,
        reasoning: None,
    }
}

/// Whether no two tools go by one name at the service.
pub open spec fn told_apart(tools: Seq<ToolView>) -> bool {
    forall|i: int, j: int|
        0 <= i < j < tools.len() ==> tool_name((#[trigger] tools[i]).name) != tool_name(
            (#[trigger] tools[j]).name,
        )
}

/// A call of a tool comes back under the tool's own name, where no two tools go
/// by one name at the service.
pub proof fn law_tool_names_come_back(tools: Seq<ToolView>, i: int)
    requires
        told_apart(tools),
        0 <= i < tools.len(),
    ensures
        own_name(tools, tool_name(tools[i].name)) == tools[i].name,
    decreases tools.len(),
{
    let front = tools.drop_last();
    let last = tools.len() - 1;
    assert(told_apart(front)) by {
        assert forall|a: int, b: int| 0 <= a < b < front.len() implies tool_name(
            (#[trigger] front[a]).name,
        ) != tool_name((#[trigger] front[b]).name) by {
            assert(front[a] == tools[a] && front[b] == tools[b]);
        }
    }
    if i < last {
        assert(tool_name(tools[i].name) != tool_name(tools[last].name));
        assert(front[i] == tools[i]);
        law_tool_names_come_back(front, i);
    } else if tool_name(tools[i].name) == tools[i].name {
        assert forall|k: int| 0 <= k < front.len() implies tool_name((#[trigger] front[k]).name)
            != tools[i].name by {
            assert(front[k] == tools[k]);
            assert(tool_name(tools[k].name) != tool_name(tools[last].name));
        }
        lemma_name_not_taken(front, tools[i].name);
    }
}

proof fn lemma_name_not_taken(tools: Seq<ToolView>, name: Seq<char>)
    requires
        forall|k: int| 0 <= k < tools.len() ==> tool_name((#[trigger] tools[k]).name) != name,
    ensures
        own_name(tools, name) == name,
    decreases tools.len(),
{
    if tools.len() > 0 {
        assert(tool_name(tools[tools.len() - 1].name) != name);
        assert forall|k: int| 0 <= k < tools.drop_last().len() implies tool_name(
            (#[trigger] tools.drop_last()[k]).name,
        ) != name by {
            assert(tools.drop_last()[k] == tools[k]);
        }
        lemma_name_not_taken(tools.drop_last(), name);
    }
}

impl OpenAiResponsesProvider {
    /// The headers that a provider adds leave room for those that every request
    /// has.
    pub open spec fn wf(self) -> bool {
        &&& header_entries(self.extra_headers).dom().finite()
        &&& header_entries(self.extra_headers).dom().len() <= MOST_EXTRA_HEADERS
    }

    /// Whether this is the provider that a configuration describes.
    pub open spec fn is_set_up(
        self,
        config: RegistryProviderConfig,
        base_url: Seq<char>,
        input_cost: rust_decimal::Decimal,
        output_cost: rust_decimal::Decimal,
    ) -> bool {
        &&& self.provider_id@ == config.provider_id@
        &&& self.base_url@ == base_url
        &&& self.model@ == config.model@
        &&& opt_text(self.api_key) == opt_text(config.api_key)
        &&& header_entries(self.extra_headers) == accepted(header_pairs(config.extra_headers@))
        &&& texts(self.unsupported_params@) == each_once(texts(config.unsupported_params@))
        &&& self.input_cost == input_cost
        &&& self.output_cost == output_cost
    }

    /// A provider, with what its model costs for each token that goes in and for
    /// each that comes out. Headers of which the name or the value is not accepted
    /// are left out.
    pub fn new(
        config: &RegistryProviderConfig,
        base_url: String,
        input_cost: rust_decimal::Decimal,
        output_cost: rust_decimal::Decimal,
    ) -> (r: Result<Self, LlmError>)
        requires
            accepted(header_pairs(config.extra_headers@)).dom().len() <= MOST_EXTRA_HEADERS,
        ensures
            r matches Ok(p) && p.wf() && p.is_set_up(*config, base_url@, input_cost, output_cost),
    {
        let headers = gather_headers(&config.extra_headers);
        Ok(Self::with_headers(config, base_url, input_cost, output_cost, headers))
    }

    /// A provider, as by `new`, whatever headers it adds. There is none where the
    /// map of headers has no room for them, which can be only if they are too many.
    pub fn new_within(
        config: &RegistryProviderConfig,
        base_url: String,
        input_cost: rust_decimal::Decimal,
        output_cost: rust_decimal::Decimal,
    ) -> (r: Option<Self>)
        ensures
            match r {
                Some(p) => p.is_set_up(*config, base_url@, input_cost, output_cost)
                    && header_entries(p.extra_headers).dom().finite(),
                None => has_many(accepted(header_pairs(config.extra_headers@))),
            },
    {
        match gather_within(&config.extra_headers) {
            Some(headers) => Some(
                Self::with_headers(config, base_url, input_cost, output_cost, headers),
            ),
            None => None,
        }
    }

    fn with_headers(
        config: &RegistryProviderConfig,
        base_url: String,
        input_cost: rust_decimal::Decimal,
        output_cost: rust_decimal::Decimal,
        extra_headers: reqwest::header::HeaderMap,
    ) -> (p: Self)
        requires
            header_entries(extra_headers) == accepted(header_pairs(config.extra_headers@)),
        ensures
            p.is_set_up(*config, base_url@, input_cost, output_cost),
            p.extra_headers == extra_headers,
    {
        let api_key = match &config.api_key {
            Some(k) => Some(k.clone()),
            None => None,
        };
        OpenAiResponsesProvider {
            provider_id: config.provider_id.clone(),
            base_url,
            model: config.model.clone(),
            api_key,
            extra_headers,
            unsupported_params: once_each(&config.unsupported_params),
            input_cost,
            output_cost,
        }
    }

    /// The address of a path of the service.
    pub fn api_url(&self, path: &str) -> (r: String)
        ensures
            r@ == address_of(self.base_url@, path@),
    {
        let base = chars_of(self.base_url.as_str());
        let rest = chars_of(path);
        let head = string_of(without_trailing(base.as_slice(), '/'));
        let tail = string_of(without_leading(rest.as_slice(), '/'));
        concat3(head.as_str(), "/", tail.as_str())
    }

    /// The headers of a request that takes an answer of the kind `accept`.
    pub fn build_headers(&self, accept: &'static str) -> (r: Result<
        reqwest::header::HeaderMap,
        LlmError,
    >)
        requires
            self.wf(),
            is_visible(accept@),
        ensures
            headers_outcome(r) == headers_of(
                self.provider_id@,
                header_entries(self.extra_headers),
                opt_text(self.api_key),
                accept@,
            ),
    {
        match self.build_headers_within(accept) {
            Some(r) => r,
            None => Ok(copy_headers(&self.extra_headers)),
        }
    }

    /// The headers of a request, as by `build_headers`, whatever headers the
    /// provider adds. There are none where the map of headers has no room for them,
    /// which can be only if they are too many.
    pub fn build_headers_within(&self, accept: &'static str) -> (r: Option<
        Result<reqwest::header::HeaderMap, LlmError>,
    >)
        requires
            is_visible(accept@),
        ensures
            match r {
                Some(h) => headers_outcome(h) == headers_of(
                    self.provider_id@,
                    header_entries(self.extra_headers),
                    opt_text(self.api_key),
                    accept@,
                ),
                None => !self.wf(),
            },
    {
        proof {
            lemma_usual_names();
        }
        let mut headers = copy_headers(&self.extra_headers);
        if insert_header(&mut headers, "content-type", "application/json").is_err() {
            return None;
        }
        if insert_header(&mut headers, "accept", accept).is_err() {
            return None;
        }
        if let Some(key) = &self.api_key {
            let value = concat2("Bearer ", key.as_str());
            match insert_header(&mut headers, "authorization", value.as_str()) {
                Ok(_) => {},
                Err(HeaderFault::Value(text)) => {
                    proof {
                        reveal_strlit("Invalid API key header value: ");
                        reveal_strlit("failed to parse header value");
                        reveal_strlit("Invalid API key header value: failed to parse header value");
                        assert("Invalid API key header value: "@ + "failed to parse header value"@
                            =~= "Invalid API key header value: failed to parse header value"@);
                    }
                    return Some(
                        Err(
                            LlmError::RequestFailed {
                                provider: self.provider_id.clone(),
                                reason: concat2("Invalid API key header value: ", text.as_str()),
                            },
                        ),
                    );
                },
                Err(_) => {
                    return None;
                },
            }
        }
        Some(Ok(headers))
    }

    /// The body of a request for a completion. The messages are those that the
    /// service is to see.
    pub fn completion_body(
        &self,
        model_override: Option<&str>,
        messages: &Vec<ChatMessage>,
        temperature: Option<Json>,
        max_tokens: Option<u32>,
    ) -> (r: Json)
        ensures
            r@ == body_of(
                match opt_str(model_override) {
                    Some(m) => m,
                    None => self.model@,
                },
                message_views(messages@),
                seq![],
                None,
                opt_json(temperature),
                max_tokens,
            ),
    {
        let model = match model_override {
            Some(m) => m,
            None => self.model.as_str(),
        };
        let tools: Vec<ToolDefinition> = Vec::new();
        assert(tool_views(tools@) =~= Seq::<ToolView>::empty());
        build_request_body(model, messages, &tools, None, temperature, max_tokens)
    }

    /// The body of a request for a completion that may call tools.
    pub fn tool_completion_body(
        &self,
        model_override: Option<&str>,
        messages: &Vec<ChatMessage>,
        tools: &Vec<ToolDefinition>,
        tool_choice: Option<&str>,
        temperature: Option<Json>,
        max_tokens: Option<u32>,
    ) -> (r: Json)
        ensures
            r@ == body_of(
                match opt_str(model_override) {
                    Some(m) => m,
                    None => self.model@,
                },
                message_views(messages@),
                tool_views(tools@),
                opt_str(tool_choice),
                opt_json(temperature),
                max_tokens,
            ),
    {
        let model = match model_override {
            Some(m) => m,
            None => self.model.as_str(),
        };
        build_request_body(model, messages, tools, tool_choice, temperature, max_tokens)
    }

    /// What the model said, given what came of sending a request.
    pub fn receive_response(&self, reply: HttpReply) -> (r: Result<ParsedResponse, LlmError>)
        ensures
            parsed_outcome(r) == reply_outcome(self.provider_id@, reply),
    {
        let provider = self.provider_id.clone();
        match reply {
            HttpReply::NotSent(e) => Err(
                LlmError::RequestFailed {
                    provider,
                    reason: concat2("HTTP request failed: ", e.as_str()),
                },
            ),
            HttpReply::Refused { status, status_text, preview, retry_after, used, limit } => Err(
                if status == 401 {
                    LlmError::AuthFailed { provider }
                } else if status == 429 {
                    LlmError::RateLimited { provider, retry_after }
                } else if status == 413 {
                    LlmError::ContextLengthExceeded { used, limit }
                } else if 500 <= status && status <= 599 {
                    LlmError::BadGateway { provider, status, retry_after }
                } else {
                    let head = concat3("HTTP ", status_text.as_str(), ": ");
                    LlmError::RequestFailed {
                        provider,
                        reason: concat2(head.as_str(), preview.as_str()),
                    }
                },
            ),
            HttpReply::Unreadable(e) => Err(
                LlmError::RequestFailed {
                    provider,
                    reason: concat2("Failed to read response body: ", e.as_str()),
                },
            ),
            HttpReply::Body(body) => parse_sse_response(provider.as_str(), body.as_str()),
        }
    }

    /// The names of the models, given what came of asking for them.
    pub fn receive_models(&self, reply: ModelsReply) -> (r: Result<Vec<String>, LlmError>)
        ensures
            ids_outcome(r) == models_outcome(self.provider_id@, reply),
    {
        let provider = self.provider_id.clone();
        match reply {
            ModelsReply::NotSent(e) => Err(
                LlmError::RequestFailed {
                    provider,
                    reason: concat2("Failed to fetch models: ", e.as_str()),
                },
            ),
            ModelsReply::Unreadable(e) => Err(
                LlmError::RequestFailed {
                    provider,
                    reason: concat2("Failed to read models response: ", e.as_str()),
                },
            ),
            ModelsReply::Refused { status_text, preview } => {
                let head = concat3("Models endpoint returned HTTP ", status_text.as_str(), ": ");
                Err(
                    LlmError::RequestFailed {
                        provider,
                        reason: concat2(head.as_str(), preview.as_str()),
                    },
                )
            },
            ModelsReply::Body(body) => match Json::read(body.as_str()) {
                Ok(v) => Ok(extract_model_ids(&v)),
                Err(e) => Err(LlmError::Json(e)),
            },
        }
    }

    /// The name of the provider's model.
    pub fn model_name(&self) -> (r: &str)
        ensures
            r@ == self.model@,
    {
        self.model.as_str()
    }

    /// What the model costs for each token that goes in and for each that comes
    /// out.
    pub fn cost_per_token(&self) -> (r: (rust_decimal::Decimal, rust_decimal::Decimal))
        ensures
            r == (self.input_cost, self.output_cost),
    {
        (self.input_cost, self.output_cost)
    }

    /// What is known of the provider's model.
    pub fn model_metadata(&self) -> (r: ModelMetadata)
        ensures
            r.id@ == self.model@,
            r.context_length is None,
    {
        ModelMetadata { id: self.model.clone(), context_length: None }
    }

    /// The model that a request uses: the one that it names, or else the
    /// provider's own.
    pub fn effective_model_name(&self, requested_model: Option<&str>) -> (r: String)
        ensures
            r@ == match opt_str(requested_model) {
                Some(m) => m,
                None => self.model@,
            },
    {
        match requested_model {
            Some(m) => m.to_owned(),
            None => self.model.clone(),
        }
    }
}

/// The address of a path is the base address, one slash and the path, whatever
/// slashes the base ends with or the path begins with.
pub proof fn law_addresses_have_one_slash(base: Seq<char>, path: Seq<char>)
    ensures
        base.len() > 0 && base.last() != '/' && path.len() > 0 && path.first() != '/'
            ==> address_of(base, path) == base + seq!['/'] + path,
        address_of(base.push('/'), path) == address_of(base, path),
        address_of(base, seq!['/'] + path) == address_of(base, path),
{
    reveal_strlit("/");
    assert("/"@ =~= seq!['/']);
    assert(base.push('/').drop_last() =~= base);
    assert((seq!['/'] + path).drop_first() =~= path);
}

/// A request has the headers that the provider adds, but for those that every
/// request has, and is authorized by the key where there is one. It cannot be made
/// where the key cannot stand in a header.
pub proof fn law_requests_are_authorized(
    provider: Seq<char>,
    extra: Map<Seq<char>, Seq<u8>>,
    key: Seq<char>,
    accept: Seq<char>,
    k: Seq<char>,
)
    requires
        k != "content-type"@,
        k != "accept"@,
        k != "authorization"@,
    ensures
        ({
            let open = headers_of(provider, extra, None, accept);
            let keyed = headers_of(provider, extra, Some(key), accept);
            &&& open matches Ok(m) && m.dom().contains(k) == extra.dom().contains(k) && m[k]
                == extra[k] && m.dom().contains("authorization"@) == extra.dom().contains(
                "authorization"@,
            ) && m["authorization"@] == extra["authorization"@]
            &&& is_header_value("Bearer "@ + key) ==> {
                &&& keyed matches Ok(m)
                &&& m.dom().contains(k) == extra.dom().contains(k)
                &&& m[k] == extra[k]
                &&& m.contains_pair("authorization"@, encode_utf8("Bearer "@ + key))
            }
            &&& !is_header_value("Bearer "@ + key) ==> keyed == Err::<
                Map<Seq<char>, Seq<u8>>,
                LlmErrorView,
            >(
                LlmErrorView::RequestFailed(
                    provider,
                    "Invalid API key header value: failed to parse header value"@,
                ),
            )
        }),
{
    reveal_strlit("content-type");
    reveal_strlit("accept");
    reveal_strlit("authorization");
    assert("content-type"@[0] == 'c' && "accept"@[0] == 'a' && "authorization"@[0] == 'a');
    assert("accept"@[1] == 'c' && "authorization"@[1] == 'u');
}

/// A status that is no success is an error by its number: the key was not accepted,
/// too much was asked for in a time or at once, the service itself failed, or
/// another one, of which the status and the start of what was said are given.
pub proof fn law_refusals_go_by_their_status(
    provider: Seq<char>,
    status: u16,
    text: Seq<char>,
    preview: Seq<char>,
    retry_after: Option<RetryDelay>,
    used: usize,
    limit: usize,
)
    ensures
        ({
            let e = refusal(provider, status, text, preview, retry_after, used, limit);
            &&& status == 401 ==> e == LlmErrorView::AuthFailed(provider)
            &&& status == 429 ==> e == LlmErrorView::RateLimited(provider, retry_after)
            &&& status == 413 ==> e == LlmErrorView::ContextLengthExceeded(used, limit)
            &&& 500 <= status < 600 ==> e == LlmErrorView::BadGateway(provider, status, retry_after)
            &&& status != 401 && status != 429 && status != 413 && !(500 <= status < 600) ==> e
                == LlmErrorView::RequestFailed(provider, "HTTP "@ + text + ": "@ + preview)
        }),
{
}

/// What comes of a request is the answer that its stream spells, or why there is
/// none.
pub proof fn law_replies_are_told(provider: Seq<char>, e: String, body: String)
    ensures
        reply_outcome(provider, HttpReply::NotSent(e)) == Err::<ResponseView, LlmErrorView>(
            LlmErrorView::RequestFailed(provider, "HTTP request failed: "@ + e@),
        ),
        reply_outcome(provider, HttpReply::Unreadable(e)) == Err::<ResponseView, LlmErrorView>(
            LlmErrorView::RequestFailed(provider, "Failed to read response body: "@ + e@),
        ),
        reply_outcome(provider, HttpReply::Body(body)) == stream_outcome(provider, body@),
        models_outcome(provider, ModelsReply::NotSent(e)) == Err::<Seq<Seq<char>>, LlmErrorView>(
            LlmErrorView::RequestFailed(provider, "Failed to fetch models: "@ + e@),
        ),
        models_outcome(provider, ModelsReply::Unreadable(e)) == Err::<Seq<Seq<char>>, LlmErrorView>(
            LlmErrorView::RequestFailed(provider, "Failed to read models response: "@ + e@),
        ),
        models_outcome(provider, ModelsReply::Refused { status_text: e, preview: body }) == Err::<
            Seq<Seq<char>>,
            LlmErrorView,
        >(
            LlmErrorView::RequestFailed(
                provider,
                "Models endpoint returned HTTP "@ + e@ + ": "@ + body@,
            ),
        ),
        parsed(body@) matches Ok(v) ==> models_outcome(provider, ModelsReply::Body(body)) == Ok::<
            Seq<Seq<char>>,
            LlmErrorView,
        >(listed_models(v)),
        parsed(body@) matches Err(x) ==> models_outcome(provider, ModelsReply::Body(body)) == Err::<
            Seq<Seq<char>>,
            LlmErrorView,
        >(LlmErrorView::Json(x)),
{
}

/// The models are those that are listed under `data`, or else under `models`, in
/// their order: each by its identifier, or else by its name or its model. Items that
/// name none are left out.
pub proof fn law_models_are_listed(a: Seq<JsonView>, b: Seq<JsonView>, x: JsonView, v: JsonView)
    ensures
        model_ids(a + b) == model_ids(a) + model_ids(b),
        ({
            let id = match x.get("id"@) {
                Some(i) => Some(i),
                None => match x.get("name"@) {
                    Some(n) => Some(n),
                    None => x.get("model"@),
                },
            };
            model_ids(seq![x]) == match id {
                Some(JsonView::Text(s)) => seq![s],
                _ => seq![],
            }
        }),
        v.get("data"@) == Some(JsonView::Array(a)) ==> listed_models(v) == model_ids(a),
        v.get("data"@) is None && v.get("models"@) == Some(JsonView::Array(a)) ==> listed_models(v)
            == model_ids(a),
        v.get("data"@) is None && v.get("models"@) is None ==> listed_models(v).len() == 0,
    decreases b.len(),
{
    let none = Seq::<JsonView>::empty();
    assert(model_ids(none) =~= Seq::<Seq<char>>::empty());
    assert(seq![x].drop_last() =~= none);
    assert(seq![x].last() == x);
    match model_id(x) {
        Some(id) => {
            assert(model_ids(seq![x]) =~= seq![id]);
        },
        None => {},
    }
    if b.len() == 0 {
        assert(a + b =~= a);
        assert(model_ids(a) + model_ids(b) =~= model_ids(a));
    } else {
        assert((a + b).drop_last() =~= a + b.drop_last());
        law_models_are_listed(a, b.drop_last(), x, v);
        assert(model_ids(a + b) =~= model_ids(a) + model_ids(b));
    }
}

/// The first of each text of a list is kept, in its place among the others.
pub proof fn law_the_first_of_each_is_kept(s: Seq<Seq<char>>, x: Seq<char>)
    ensures
        s.contains(x) ==> each_once(s.push(x)) == each_once(s),
        !s.contains(x) ==> each_once(s.push(x)) == each_once(s).push(x),
{
    law_each_once_keeps_the_texts(s);
    assert(s.push(x).drop_last() =~= s);
    assert(s.push(x).last() == x);
}

/// A call keeps everything but its name when it comes back, and keeps that too where
/// no tool goes by it at the service. Calls come back in their order.
pub proof fn law_calls_come_back(tools: Seq<ToolView>, calls: Seq<CallView>, i: int)
    requires
        0 <= i < calls.len(),
    ensures
        all_renamed(tools, calls).len() == calls.len(),
        all_renamed(tools, calls)[i].id == calls[i].id,
        all_renamed(tools, calls)[i].arguments == calls[i].arguments,
        all_renamed(tools, calls)[i].reasoning == calls[i].reasoning,
        all_renamed(tools, calls)[i].signature == calls[i].signature,
        all_renamed(tools, calls)[i].name == own_name(tools, calls[i].name),
        (forall|k: int|
            0 <= k < tools.len() ==> tool_name((#[trigger] tools[k]).name) != calls[i].name)
            ==> all_renamed(tools, calls)[i].name == calls[i].name,
{
    if forall|k: int|
        0 <= k < tools.len() ==> tool_name((#[trigger] tools[k]).name) != calls[i].name {
        lemma_name_not_taken(tools, calls[i].name);
    }
}

/// The text in which token counts are looked for is the answer with the letters of
/// ASCII made small.
pub proof fn law_lower_texts(s: Seq<char>, i: int)
    requires
        0 <= i < s.len(),
    ensures
        lower_text(s).len() == s.len(),
        lower_text(s)[i] as int == if 65 <= s[i] as int <= 90 {
            s[i] as int + 32
        } else {
            s[i] as int
        },
{
}

/// A provider has what its configuration gives: its name, its model, its key, the
/// headers that are accepted, the parameters that it does without, and its costs.
pub proof fn law_providers_are_set_up_as_configured(
    p: OpenAiResponsesProvider,
    config: RegistryProviderConfig,
    base_url: Seq<char>,
    input_cost: rust_decimal::Decimal,
    output_cost: rust_decimal::Decimal,
)
    requires
        p.is_set_up(config, base_url, input_cost, output_cost),
    ensures
        p.provider_id@ == config.provider_id@,
        p.base_url@ == base_url,
        p.model@ == config.model@,
        config.api_key matches Some(k) ==> (p.api_key matches Some(x) && x@ == k@),
        config.api_key is None ==> p.api_key is None,
        header_entries(p.extra_headers) == accepted(header_pairs(config.extra_headers@)),
        texts(p.unsupported_params@) == each_once(texts(config.unsupported_params@)),
        p.input_cost == input_cost,
        p.output_cost == output_cost,
{
}

/// A text is visible where each of its characters is one of ASCII that can be seen,
/// a space or a tab.
pub proof fn law_visible_texts(a: Seq<char>, b: Seq<char>, c: char)
    ensures
        is_visible(a + b) <==> is_visible(a) && is_visible(b),
        is_visible(seq![c]) <==> 32 <= c as int <= 126 || c as int == 9,
{
    let n = a.len() as int;
    let whole = a + b;
    if is_visible(whole) {
        assert forall|i: int| 0 <= i < a.len() implies ('\u{20}' <= #[trigger] a[i] && a[i]
            < '\u{7f}') || a[i] == '\t' by {
            assert(whole[i] == a[i]);
        }
        assert forall|i: int| 0 <= i < b.len() implies ('\u{20}' <= #[trigger] b[i] && b[i]
            < '\u{7f}') || b[i] == '\t' by {
            assert(whole[n + i] == b[i]);
        }
    }
    if is_visible(a) && is_visible(b) {
        assert forall|i: int| 0 <= i < whole.len() implies ('\u{20}' <= #[trigger] whole[i]
            && whole[i] < '\u{7f}') || whole[i] == '\t' by {
            if i < n {
                assert(whole[i] == a[i]);
            } else {
                assert(whole[i] == b[i - n]);
            }
        }
    }
    let one = seq![c];
    assert(one[0] == c);
    if 32 <= c as int <= 126 || c as int == 9 {
        assert forall|i: int| 0 <= i < one.len() implies ('\u{20}' <= #[trigger] one[i] && one[i]
            < '\u{7f}') || one[i] == '\t' by {
            assert(one[i] == c);
        }
    }
}

} // verus!

//! The stream of events in which a model answers.

use vstd::prelude::*;
use vstd::slice::slice_subrange;

use crate::json::{Json, JsonView};
use crate::json_keys::{key_stands_once, names_once};
use crate::json_text::read_tree;
use crate::openai_responses::input::{argument_text, call_item, law_call_ids_are_sent_back};
use crate::openai_responses::types::{call_views, CallView, FinishReason, LlmError, LlmErrorView};
use crate::openai_responses::types::{ParsedResponse, ResponseView, ToolCall};
use crate::text::{begins_with, chars_of, concat2, concat3, lines, line_list, opt_text};
use crate::text::{push_chars, same_text, spelled, spells, starts_with, string_of, trim, trim_start};
use crate::text::{is_space, trimmed};

verus! {

/// A call whose arguments are still coming in.
#[derive(Debug, PartialEq)]
pub struct FunctionCallState {
    pub item_id: String,
    pub call_id: String,
    pub name: String,
    pub arguments: String,
}

/// What such a call is.
pub struct ActiveView {
    pub item_id: Seq<char>,
    pub call_id: Seq<char>,
    pub name: Seq<char>,
    pub arguments: Seq<char>,
}

impl View for FunctionCallState {
    type V = ActiveView;

    open spec fn view(&self) -> ActiveView {
        ActiveView {
            item_id: self.item_id@,
            call_id: self.call_id@,
            name: self.name@,
            arguments: self.arguments@,
        }
    }
}

/// What a list of such calls is.
pub open spec fn active_views(s: Seq<FunctionCallState>) -> Seq<ActiveView> {
    s.map_values(|x: FunctionCallState| x@)
}

/// What has come in of an answer.
#[derive(Debug, PartialEq)]
pub struct Answer {
    pub text: String,
    pub calls: Vec<ToolCall>,
    pub active: Vec<FunctionCallState>,
    pub input_tokens: u32,
    pub output_tokens: u32,
    pub status: Option<String>,
}

/// What an answer is so far.
pub struct AnswerView {
    pub text: Seq<char>,
    pub calls: Seq<CallView>,
    pub active: Seq<ActiveView>,
    pub input_tokens: u32,
    pub output_tokens: u32,
    pub status: Option<Seq<char>>,
}

impl View for Answer {
    type V = AnswerView;

    open spec fn view(&self) -> AnswerView {
        AnswerView {
            text: self.text@,
            calls: call_views(self.calls@),
            active: active_views(self.active@),
            input_tokens: self.input_tokens,
            output_tokens: self.output_tokens,
            status: opt_text(self.status),
        }
    }
}

/// An answer of which nothing has come in.
pub open spec fn no_answer() -> AnswerView {
    AnswerView {
        text: seq![],
        calls: seq![],
        active: seq![],
        input_tokens: 0,
        output_tokens: 0,
        status: None,
    }
}

/// The place of the call with an identifier among those that are coming in.
pub open spec fn slot(active: Seq<ActiveView>, id: Seq<char>) -> Option<int>
    decreases active.len(),
{
    if active.len() == 0 {
        None
    } else if active.last().item_id == id {
        Some(active.len() - 1)
    } else {
        slot(active.drop_last(), id)
    }
}

/// The calls that are coming in, with one more or with one replaced.
pub open spec fn with_active(active: Seq<ActiveView>, x: ActiveView) -> Seq<ActiveView> {
    match slot(active, x.item_id) {
        Some(i) => active.update(i, x),
        None => active.push(x),
    }
}

/// The calls that are coming in, without one.
pub open spec fn without_active(active: Seq<ActiveView>, id: Seq<char>) -> Seq<ActiveView> {
    match slot(active, id) {
        Some(i) => active.remove(i),
        None => active,
    }
}

/// The text that a value has under `key`, or else `other`.
pub open spec fn text_or(v: JsonView, key: Seq<char>, other: Seq<char>) -> Seq<char> {
    match v.str_at(key) {
        Some(s) => s,
        None => other,
    }
}

/// Whether an item is a call.
pub open spec fn is_call(item: JsonView) -> bool {
    item.str_at("type"@) == Some("function_call"@)
}

/// The call that an item announces.
pub open spec fn announced(item: JsonView) -> ActiveView {
    let id = match item.get("id"@) {
        Some(v) => v.as_str(),
        None => item.str_at("call_id"@),
    };
    let item_id = match id {
        Some(s) => s,
        None => ""@,
    };
    ActiveView {
        item_id,
        call_id: text_or(item, "call_id"@, item_id),
        name: text_or(item, "name"@, ""@),
        arguments: ""@,
    }
}

/// The call that an item is by itself.
pub open spec fn complete_in_itself(item: JsonView) -> ActiveView {
    let item_id = text_or(item, "id"@, ""@);
    ActiveView {
        item_id,
        call_id: text_or(item, "call_id"@, item_id),
        name: text_or(item, "name"@, ""@),
        arguments: text_or(item, "arguments"@, "{}"@),
    }
}

/// The arguments that a text stands for: itself, where it is no JSON text.
pub open spec fn arguments_of(s: Seq<char>) -> JsonView {
    match read_tree(s) {
        Some(v) => v,
        None => JsonView::Text(s),
    }
}

/// The call that has come in.
pub open spec fn call_of(a: ActiveView) -> CallView {
    CallView {
        id: a.call_id,
        name: a.name,
        arguments: arguments_of(a.arguments),
        reasoning: None,
        signature: None,
    }
}

/// The calls with one more, if it has a name.
pub open spec fn with_call(calls: Seq<CallView>, a: ActiveView) -> Seq<CallView> {
    if a.name.len() > 0 {
        calls.push(call_of(a))
    } else {
        calls
    }
}

/// A number, as far as 32 bits can hold it.
pub open spec fn capped(n: u64) -> u32 {
    if n <= u32::MAX {
        n as u32
    } else {
        u32::MAX
    }
}

/// The count that a value has under `key`.
pub open spec fn count_at(v: JsonView, key: Seq<char>) -> u32 {
    match v.get(key) {
        Some(n) => match n.as_u64() {
            Some(k) => capped(k),
            None => 0,
        },
        None => 0,
    }
}

/// An answer after the event that says that it is complete.
pub open spec fn completed(a: AnswerView, response: JsonView) -> AnswerView {
    let status = response.str_at("status"@);
    match response.get("usage"@) {
        Some(usage) => AnswerView {
            input_tokens: count_at(usage, "input_tokens"@),
            output_tokens: count_at(usage, "output_tokens"@),
            status,
            ..a
        },
        None => AnswerView { status, ..a },
    }
}

/// What an event says of a failure.
pub open spec fn failure_text(data: JsonView) -> Seq<char> {
    let message = match data.get("response"@) {
        Some(r) => match r.get("status_details"@) {
            Some(d) => match d.get("error"@) {
                Some(e) => e.str_at("message"@),
                None => None,
            },
            None => None,
        },
        None => None,
    };
    match message {
        Some(m) => m,
        None => "Unknown error"@,
    }
}

/// An answer after an event, or the reason why there will be none.
pub open spec fn after_event(a: AnswerView, kind: Seq<char>, data: JsonView) -> Result<
    AnswerView,
    Seq<char>,
> {
    if kind == "response.output_text.delta"@ {
        match data.str_at("delta"@) {
            Some(d) => Ok(AnswerView { text: a.text + d, ..a }),
            None => Ok(a),
        }
    } else if kind == "response.output_item.added"@ {
        match data.get("item"@) {
            Some(item) => if is_call(item) {
                Ok(AnswerView { active: with_active(a.active, announced(item)), ..a })
            } else {
                Ok(a)
            },
            None => Ok(a),
        }
    } else if kind == "response.function_call_arguments.delta"@ {
        match (slot(a.active, text_or(data, "item_id"@, ""@)), data.str_at("delta"@)) {
            (Some(i), Some(d)) => {
                let x = a.active[i];
                Ok(
                    AnswerView {
                        active: a.active.update(
                            i,
                            ActiveView { arguments: x.arguments + d, ..x },
                        ),
                        ..a
                    },
                )
            },
            _ => Ok(a),
        }
    } else if kind == "response.function_call_arguments.done"@ {
        match (slot(a.active, text_or(data, "item_id"@, ""@)), data.str_at("arguments"@)) {
            (Some(i), Some(s)) => {
                let x = a.active[i];
                Ok(
                    AnswerView {
                        active: a.active.update(i, ActiveView { arguments: s, ..x }),
                        ..a
                    },
                )
            },
            _ => Ok(a),
        }
    } else if kind == "response.output_item.done"@ {
        match data.get("item"@) {
            Some(item) => if is_call(item) {
                let id = text_or(item, "id"@, ""@);
                let x = match slot(a.active, id) {
                    Some(i) => a.active[i],
                    None => complete_in_itself(item),
                };
                Ok(
                    AnswerView {
                        active: without_active(a.active, id),
                        calls: with_call(a.calls, x),
                        ..a
                    },
                )
            } else {
                Ok(a)
            },
            None => Ok(a),
        }
    } else if kind == "response.completed"@ {
        match data.get("response"@) {
            Some(response) => Ok(completed(a, response)),
            None => Ok(a),
        }
    } else if kind == "response.failed"@ {
        Err("Response failed: "@ + failure_text(data))
    } else if kind == "error"@ {
        Err(
            "Error "@ + text_or(data, "code"@, "unknown"@) + ": "@ + text_or(
                data,
                "message"@,
                "Unknown error"@,
            ),
        )
    } else {
        Ok(a)
    }
}

/// What a line carries: the text behind `data:`.
pub open spec fn payload(line: Seq<char>) -> Option<Seq<char>> {
    let l = trim(line);
    if starts_with(l, "data:"@) {
        Some(trim(l.skip("data:"@.len() as int)))
    } else {
        None
    }
}

/// The event that a payload spells: an object that names its kind, once.
pub open spec fn event_of(payload: Seq<char>) -> Option<(Seq<char>, JsonView)> {
    match read_tree(payload) {
        Some(v) => match v.str_at("type"@) {
            Some(kind) => if names_once(payload, "type"@) {
                Some((kind, v))
            } else {
                None
            },
            None => None,
        },
        None => None,
    }
}

/// An answer after a line, or the reason why there will be none. A line that
/// spells no event leaves it as it is.
pub open spec fn after_line(a: AnswerView, line: Seq<char>) -> Result<AnswerView, Seq<char>> {
    match payload(line) {
        Some(p) => match event_of(p) {
            Some(e) => after_event(a, e.0, e.1),
            None => Ok(a),
        },
        None => Ok(a),
    }
}

/// Whether a line ends the stream.
pub open spec fn ends_stream(line: Seq<char>) -> bool {
    payload(line) == Some("[DONE]"@)
}

/// An answer after some lines, up to one that ends the stream.
pub open spec fn after_lines(a: AnswerView, ls: Seq<Seq<char>>) -> Result<AnswerView, Seq<char>>
    decreases ls.len(),
{
    if ls.len() == 0 || ends_stream(ls.first()) {
        Ok(a)
    } else {
        match after_line(a, ls.first()) {
            Err(e) => Err(e),
            Ok(b) => after_lines(b, ls.drop_first()),
        }
    }
}

/// Calls that never were said to be done, behind those that were.
pub open spec fn with_unfinished(calls: Seq<CallView>, active: Seq<ActiveView>) -> Seq<CallView>
    decreases active.len(),
{
    if active.len() == 0 {
        calls
    } else {
        with_call(with_unfinished(calls, active.drop_last()), active.last())
    }
}

/// Why a model stopped.
pub open spec fn reason_of(calls: Seq<CallView>, status: Option<Seq<char>>) -> FinishReason {
    if calls.len() > 0 {
        FinishReason::ToolUse
    } else if status == Some("incomplete"@) {
        FinishReason::Length
    } else {
        FinishReason::Stop
    }
}

/// What a model said, once its stream is over.
pub open spec fn response_of(a: AnswerView) -> ResponseView {
    let tool_calls = with_unfinished(a.calls, a.active);
    ResponseView {
        text_content: a.text,
        tool_calls,
        input_tokens: a.input_tokens,
        output_tokens: a.output_tokens,
        finish_reason: reason_of(tool_calls, a.status),
    }
}

/// What a stream says.
pub open spec fn stream_outcome(provider: Seq<char>, body: Seq<char>) -> Result<
    ResponseView,
    LlmErrorView,
> {
    match after_lines(no_answer(), lines(body)) {
        Ok(a) => Ok(response_of(a)),
        Err(e) => Err(LlmErrorView::RequestFailed(provider, e)),
    }
}

/// What the outcome of reading a stream is.
pub open spec fn parsed_outcome(r: Result<ParsedResponse, LlmError>) -> Result<
    ResponseView,
    LlmErrorView,
> {
    match r {
        Ok(p) => Ok(p@),
        Err(e) => Err(e@),
    }
}

/// What the outcome of taking in an event is.
pub open spec fn event_outcome(r: Result<(), String>, after: AnswerView) -> Result<
    AnswerView,
    Seq<char>,
> {
    match r {
        Ok(_) => Ok(after),
        Err(e) => Err(e@),
    }
}

/// A number, as far as 32 bits can hold it.
pub fn saturate_u32(value: u64) -> (r: u32)
    ensures
        r == capped(value),
{
    if value <= u32::MAX as u64 {
        value as u32
    } else {
        u32::MAX
    }
}

/// The arguments that a text stands for: itself, where it is no JSON text.
pub fn parse_arguments(arguments: &str) -> (r: Json)
    ensures
        r@ == arguments_of(arguments@),
{
    match Json::parse(arguments) {
        Some(v) => v,
        None => Json::text(arguments),
    }
}

proof fn lemma_slot(active: Seq<ActiveView>, id: Seq<char>)
    ensures
        match slot(active, id) {
            Some(i) => 0 <= i < active.len() && active[i].item_id == id && forall|j: int|
                i < j < active.len() ==> (#[trigger] active[j]).item_id != id,
            None => forall|j: int|
                0 <= j < active.len() ==> (#[trigger] active[j]).item_id != id,
        },
    decreases active.len(),
{
    if active.len() > 0 && active.last().item_id != id {
        lemma_slot(active.drop_last(), id);
        assert forall|j: int|
            (match slot(active, id) {
                Some(i) => i,
                None => -1,
            }) < j < active.len() implies (#[trigger] active[j]).item_id != id by {
            if j < active.len() - 1 {
                assert(active.drop_last()[j] == active[j]);
            }
        }
    }
}

proof fn lemma_slot_is(active: Seq<ActiveView>, id: Seq<char>, i: int)
    requires
        0 <= i < active.len(),
        active[i].item_id == id,
        forall|j: int| i < j < active.len() ==> (#[trigger] active[j]).item_id != id,
    ensures
        slot(active, id) == Some(i),
{
    lemma_slot(active, id);
    let k = slot(active, id);
    if k is None {
        assert(active[i].item_id != id);
    } else if k->0 < i {
        assert(active[i].item_id != id);
    } else if k->0 > i {
        assert(active[k->0].item_id != id);
    }
}

fn find_slot(active: &Vec<FunctionCallState>, id: &str) -> (r: Option<usize>)
    ensures
        match r {
            Some(i) => slot(active_views(active@), id@) == Some(i as int) && i < active@.len(),
            None => slot(active_views(active@), id@) is None,
        },
{
    let ghost all = active_views(active@);
    let mut n: usize = active.len();
    assert(all.take(n as int) =~= all);
    while n > 0
        invariant
            n <= active@.len(),
            all == active_views(active@),
            slot(all.take(n as int), id@) == slot(all, id@),
        decreases n,
    {
        assert(all.take(n as int).drop_last() =~= all.take(n - 1));
        assert(all.take(n as int).last() == active@[n - 1]@);
        n -= 1;
        if same_text(active[n].item_id.as_str(), id) {
            return Some(n);
        }
    }
    None
}

fn text_at_or<'a>(v: &'a Json, key: &str, other: &'a str) -> (r: &'a str)
    ensures
        r@ == text_or(v@, key@, other@),
{
    match v.str_at(key) {
        Some(s) => s,
        None => other,
    }
}

fn calls(item: &Json) -> (r: bool)
    ensures
        r == is_call(item@),
{
    match item.str_at("type") {
        Some(s) => same_text(s, "function_call"),
        None => false,
    }
}

fn announce(item: &Json) -> (r: FunctionCallState)
    ensures
        r@ == announced(item@),
{
    let id = match item.get("id") {
        Some(v) => v.as_str(),
        None => item.str_at("call_id"),
    };
    let item_id = match id {
        Some(s) => s,
        None => "",
    };
    FunctionCallState {
        item_id: item_id.to_owned(),
        call_id: text_at_or(item, "call_id", item_id).to_owned(),
        name: text_at_or(item, "name", "").to_owned(),
        arguments: "".to_owned(),
    }
}

fn take_whole(item: &Json) -> (r: FunctionCallState)
    ensures
        r@ == complete_in_itself(item@),
{
    let item_id = text_at_or(item, "id", "");
    FunctionCallState {
        item_id: item_id.to_owned(),
        call_id: text_at_or(item, "call_id", item_id).to_owned(),
        name: text_at_or(item, "name", "").to_owned(),
        arguments: text_at_or(item, "arguments", "{}").to_owned(),
    }
}

fn read_count(v: &Json, key: &str) -> (r: u32)
    ensures
        r == count_at(v@, key@),
{
    match v.get(key) {
        Some(n) => match n.as_u64() {
            Some(k) => saturate_u32(k),
            None => 0,
        },
        None => 0,
    }
}

fn push_call(out: &mut Vec<ToolCall>, state: FunctionCallState)
    ensures
        call_views(final(out)@) == with_call(call_views(old(out)@), state@),
{
    if chars_of(state.name.as_str()).len() > 0 {
        let ghost before = out@;
        let call = ToolCall {
            id: state.call_id,
            name: state.name,
            arguments: parse_arguments(state.arguments.as_str()),
            reasoning: None,
            signature: None,
        };
        out.push(call);
        assert(call_views(out@) =~= call_views(before).push(call_of(state@)));
    }
}

fn failure_reason<'a>(data: &'a Json) -> (r: &'a str)
    ensures
        r@ == failure_text(data@),
{
    let message = match data.get("response") {
        Some(r) => match r.get("status_details") {
            Some(d) => match d.get("error") {
                Some(e) => e.str_at("message"),
                None => None,
            },
            None => None,
        },
        None => None,
    };
    match message {
        Some(m) => m,
        None => "Unknown error",
    }
}

impl Answer {
    /// An answer of which nothing has come in.
    pub fn new() -> (r: Answer)
        ensures
            r@ == no_answer(),
    {
        proof {
            reveal_strlit("");
            assert(""@ =~= Seq::<char>::empty());
        }
        let r = Answer {
            text: "".to_owned(),
            calls: Vec::new(),
            active: Vec::new(),
            input_tokens: 0,
            output_tokens: 0,
            status: None,
        };
        assert(r@.calls =~= Seq::<CallView>::empty());
        assert(r@.active =~= Seq::<ActiveView>::empty());
        r
    }

    fn announce_call(&mut self, item: &Json)
        ensures
            final(self)@ == (AnswerView {
                active: with_active(old(self)@.active, announced(item@)),
                ..old(self)@
            }),
    {
        let ghost before = self.active@;
        let state = announce(item);
        match find_slot(&self.active, state.item_id.as_str()) {
            Some(i) => {
                self.active[i] = state;
                assert(active_views(self.active@) =~= active_views(before).update(
                    i as int,
                    state@,
                ));
            },
            None => {
                self.active.push(state);
                assert(active_views(self.active@) =~= active_views(before).push(state@));
            },
        }
    }

    /// Gives the arguments of the call at `i` a new text.
    fn set_arguments(&mut self, i: usize, arguments: String)
        requires
            i < old(self).active@.len(),
        ensures
            final(self)@ == (AnswerView {
                active: old(self)@.active.update(
                    i as int,
                    ActiveView { arguments: arguments@, ..old(self)@.active[i as int] },
                ),
                ..old(self)@
            }),
    {
        let ghost before = self.active@;
        let state = FunctionCallState {
            item_id: self.active[i].item_id.clone(),
            call_id: self.active[i].call_id.clone(),
            name: self.active[i].name.clone(),
            arguments,
        };
        self.active[i] = state;
        assert(active_views(self.active@) =~= active_views(before).update(i as int, state@));
    }

    fn finish_call(&mut self, item: &Json)
        ensures
            ({
                let id = text_or(item@, "id"@, ""@);
                let x = match slot(old(self)@.active, id) {
                    Some(i) => old(self)@.active[i],
                    None => complete_in_itself(item@),
                };
                final(self)@ == (AnswerView {
                    active: without_active(old(self)@.active, id),
                    calls: with_call(old(self)@.calls, x),
                    ..old(self)@
                })
            }),
    {
        let ghost before = self.active@;
        let id = text_at_or(item, "id", "");
        let state = match find_slot(&self.active, id) {
            Some(i) => {
                let state = self.active.remove(i);
                assert(active_views(self.active@) =~= active_views(before).remove(i as int));
                state
            },
            None => take_whole(item),
        };
        push_call(&mut self.calls, state);
    }

    /// Takes in an event. A failure that the event reports is handed back.
    pub fn apply_event(&mut self, kind: &str, data: &Json) -> (r: Result<(), String>)
        ensures
            event_outcome(r, final(self)@) == after_event(old(self)@, kind@, data@),
    {
        if same_text(kind, "response.output_text.delta") {
            if let Some(d) = data.str_at("delta") {
                let chars = chars_of(d);
                push_chars(&mut self.text, chars.as_slice());
            }
        } else if same_text(kind, "response.output_item.added") {
            if let Some(item) = data.get("item") {
                if calls(item) {
                    self.announce_call(item);
                }
            }
        } else if same_text(kind, "response.function_call_arguments.delta") {
            if let Some(i) = find_slot(&self.active, text_at_or(data, "item_id", "")) {
                if let Some(d) = data.str_at("delta") {
                    let arguments = concat2(self.active[i].arguments.as_str(), d);
                    self.set_arguments(i, arguments);
                }
            }
        } else if same_text(kind, "response.function_call_arguments.done") {
            if let Some(i) = find_slot(&self.active, text_at_or(data, "item_id", "")) {
                if let Some(s) = data.str_at("arguments") {
                    self.set_arguments(i, s.to_owned());
                }
            }
        } else if same_text(kind, "response.output_item.done") {
            if let Some(item) = data.get("item") {
                if calls(item) {
                    self.finish_call(item);
                }
            }
        } else if same_text(kind, "response.completed") {
            if let Some(response) = data.get("response") {
                if let Some(usage) = response.get("usage") {
                    self.input_tokens = read_count(usage, "input_tokens");
                    self.output_tokens = read_count(usage, "output_tokens");
                }
                self.status = match response.str_at("status") {
                    Some(s) => Some(s.to_owned()),
                    None => None,
                };
            }
        } else if same_text(kind, "response.failed") {
            return Err(concat2("Response failed: ", failure_reason(data)));
        } else if same_text(kind, "error") {
            let head = concat3("Error ", text_at_or(data, "code", "unknown"), ": ");
            return Err(concat2(head.as_str(), text_at_or(data, "message", "Unknown error")));
        }
        Ok(())
    }

    /// What the model said, once its stream is over.
    pub fn into_response(self) -> (r: ParsedResponse)
        ensures
            r@ == response_of(self@),
    {
        let ghost all = self@.active;
        let mut tool_calls = self.calls;
        let active = self.active;
        assert(call_views(tool_calls@) == with_unfinished(self@.calls, all.take(0)));
        for state in it: active
            invariant
                it.seq() == active@,
                all == active_views(active@),
                all == self@.active,
                call_views(tool_calls@) == with_unfinished(
                    self@.calls,
                    all.take(it.index() as int),
                ),
        {
            let ghost i = it.index() as int;
            assert(all.take(i + 1).drop_last() == all.take(i));
            assert(all.take(i + 1).last() == state@);
            push_call(&mut tool_calls, state);
        }
        assert(all.take(all.len() as int) == all);
        assert(call_views(tool_calls@).len() == tool_calls@.len());
        let finish_reason = if tool_calls.len() > 0 {
            FinishReason::ToolUse
        } else {
            match &self.status {
                Some(s) => if same_text(s.as_str(), "incomplete") {
                    FinishReason::Length
                } else {
                    FinishReason::Stop
                },
                None => FinishReason::Stop,
            }
        };
        ParsedResponse {
            text_content: self.text,
            tool_calls,
            input_tokens: self.input_tokens,
            output_tokens: self.output_tokens,
            finish_reason,
        }
    }
}

/// What a line carries.
fn line_payload<'a>(line: &'a [char]) -> (r: Option<&'a [char]>)
    ensures
        match r {
            Some(p) => payload(line@) == Some(p@),
            None => payload(line@) is None,
        },
{
    let l = trimmed(line);
    if !begins_with(l, "data:") {
        return None;
    }
    let k: usize = chars_of("data:").len();
    assert(l@.subrange(k as int, l@.len() as int) =~= l@.skip(k as int));
    Some(trimmed(slice_subrange(l, k, l.len())))
}

/// What a stream of events says.
pub fn parse_sse_response(provider: &str, body: &str) -> (r: Result<ParsedResponse, LlmError>)
    ensures
        parsed_outcome(r) == stream_outcome(provider@, body@),
{
    let chars = chars_of(body);
    let rows = line_list(chars.as_slice());
    let ghost all = spelled(rows@);
    let mut answer = Answer::new();
    let mut done: bool = false;
    let mut i: usize = 0;
    assert(all.skip(0) =~= all);
    while !done && i < rows.len()
        invariant
            i <= rows@.len(),
            all == spelled(rows@),
            all == lines(body@),
            if done {
                after_lines(no_answer(), all) == Ok::<AnswerView, Seq<char>>(answer@)
            } else {
                after_lines(no_answer(), all) == after_lines(answer@, all.skip(i as int))
            },
        decreases rows@.len() - i,
    {
        let ghost rest = all.skip(i as int);
        assert(rest.first() == rows@[i as int]@);
        assert(rest.drop_first() =~= all.skip(i + 1));
        let ghost before = answer@;
        if let Some(p) = line_payload(rows[i]) {
            if spells(p, "[DONE]") {
                done = true;
            } else {
                let text = string_of(p);
                if let Some(data) = Json::parse(text.as_str()) {
                    if let Some(kind) = data.str_at("type") {
                        if key_stands_once(text.as_str(), "type") {
                            if let Err(reason) = answer.apply_event(kind, &data) {
                                return Err(
                                    LlmError::RequestFailed {
                                        provider: provider.to_owned(),
                                        reason,
                                    },
                                );
                            }
                        }
                    }
                }
            }
        }
        i += 1;
    }
    Ok(answer.into_response())
}

/// A line with `data:` and a space carries the same as one without the space.
pub proof fn law_space_behind_the_colon_is_no_matter(line: Seq<char>)
    requires
        starts_with(trim(line), "data: "@),
    ensures
        payload(line) == Some(trim(trim(line).skip("data: "@.len() as int))),
{
    reveal_strlit("data: ");
    reveal_strlit("data:");
    let l = trim(line);
    assert(l.subrange(0, 6) == "data: "@);
    assert(l[5] == "data: "@[5]);
    assert(l.subrange(0, 5) =~= "data:"@) by {
        assert forall|i: int| 0 <= i < 5 implies l[i] == "data:"@[i] by {
            assert(l[i] == l.subrange(0, 6)[i]);
        }
    }
    let rest = l.skip(5);
    assert(is_space(rest.first()));
    assert(rest.drop_first() =~= l.skip(6));
    assert(trim_start(rest) == trim_start(l.skip(6)));
}

/// Nothing behind the line that ends a stream matters.
pub proof fn law_done_ends_the_stream(a: AnswerView, ls: Seq<Seq<char>>, i: int)
    requires
        0 <= i < ls.len(),
        ends_stream(ls[i]),
    ensures
        after_lines(a, ls) == after_lines(a, ls.take(i)),
    decreases i,
{
    if i > 0 && !ends_stream(ls.first()) {
        assert(ls.take(i).first() == ls.first());
        assert(ls.take(i).drop_first() =~= ls.drop_first().take(i - 1));
        match after_line(a, ls.first()) {
            Ok(b) => {
                law_done_ends_the_stream(b, ls.drop_first(), i - 1);
            },
            Err(_) => {},
        }
    } else if i > 0 {
        assert(ls.take(i).first() == ls.first());
    }
}

/// The piece of text that a line adds.
pub open spec fn text_delta(line: Seq<char>) -> Seq<char> {
    match payload(line) {
        Some(p) => match event_of(p) {
            Some(e) => if e.0 == "response.output_text.delta"@ {
                text_or(e.1, "delta"@, seq![])
            } else {
                seq![]
            },
            None => seq![],
        },
        None => seq![],
    }
}

/// The pieces of text that some lines add, up to one that ends the stream.
pub open spec fn text_deltas(ls: Seq<Seq<char>>) -> Seq<char>
    decreases ls.len(),
{
    if ls.len() == 0 || ends_stream(ls.first()) {
        seq![]
    } else {
        text_delta(ls.first()) + text_deltas(ls.drop_first())
    }
}

/// The text of an answer is the pieces of text that its stream carries, one
/// behind the other.
pub proof fn law_text_is_the_deltas(a: AnswerView, ls: Seq<Seq<char>>)
    requires
        after_lines(a, ls) is Ok,
    ensures
        after_lines(a, ls)->Ok_0.text == a.text + text_deltas(ls),
    decreases ls.len(),
{
    if ls.len() > 0 && !ends_stream(ls.first()) {
        let b = after_line(a, ls.first())->Ok_0;
        assert(b.text =~= a.text + text_delta(ls.first()));
        law_text_is_the_deltas(b, ls.drop_first());
        assert(a.text + text_delta(ls.first()) + text_deltas(ls.drop_first()) =~= a.text
            + text_deltas(ls));
    } else {
        assert(a.text + text_deltas(ls) =~= a.text);
    }
}

/// A model stops to have tools called exactly when it calls some.
pub proof fn law_tool_use_means_calls(a: AnswerView)
    ensures
        response_of(a).finish_reason == FinishReason::ToolUse <==> response_of(
            a,
        ).tool_calls.len() > 0,
{
}

/// Whether an event ends or replaces the call with an identifier.
pub open spec fn touches(kind: Seq<char>, data: JsonView, id: Seq<char>) -> bool {
    match data.get("item"@) {
        Some(item) => {
            ||| kind == "response.output_item.added"@ && announced(item).item_id == id
            ||| kind == "response.output_item.done"@ && text_or(item, "id"@, ""@) == id
        },
        None => false,
    }
}

/// While a call is coming in, no event changes its identifier or its name but
/// one that announces it anew or says that it is done.
pub proof fn law_calls_keep_their_identifiers(
    a: AnswerView,
    kind: Seq<char>,
    data: JsonView,
    id: Seq<char>,
)
    requires
        slot(a.active, id) is Some,
        after_event(a, kind, data) is Ok,
        !touches(kind, data, id),
    ensures
        ({
            let b = after_event(a, kind, data)->Ok_0;
            &&& slot(b.active, id) is Some
            &&& b.active[slot(b.active, id)->0].call_id == a.active[slot(a.active, id)->0].call_id
            &&& b.active[slot(b.active, id)->0].name == a.active[slot(a.active, id)->0].name
        }),
{
    let b = after_event(a, kind, data)->Ok_0;
    let k = slot(a.active, id)->0;
    lemma_slot(a.active, id);
    if kind == "response.output_text.delta"@ {
    } else if kind == "response.output_item.added"@ {
        if data.get("item"@) is Some && is_call(data.get("item"@)->0) {
            let x = announced(data.get("item"@)->0);
            lemma_slot(a.active, x.item_id);
            assert(b.active == with_active(a.active, x));
            lemma_slot_is(b.active, id, k);
        }
    } else if kind == "response.function_call_arguments.delta"@ || kind
        == "response.function_call_arguments.done"@ {
        let other = text_or(data, "item_id"@, ""@);
        lemma_slot(a.active, other);
        assert(b.active.len() == a.active.len());
        assert(forall|j: int|
            0 <= j < a.active.len() ==> (#[trigger] b.active[j]).item_id == a.active[j].item_id
                && b.active[j].call_id == a.active[j].call_id && b.active[j].name
                == a.active[j].name);
        lemma_slot_is(b.active, id, k);
    } else if kind == "response.output_item.done"@ {
        if data.get("item"@) is Some && is_call(data.get("item"@)->0) {
            let other = text_or(data.get("item"@)->0, "id"@, ""@);
            lemma_slot(a.active, other);
            assert(b.active == without_active(a.active, other));
            match slot(a.active, other) {
                Some(i) => {
                    let at = if i < k {
                        k - 1
                    } else {
                        k
                    };
                    assert(b.active[at] == a.active[k]);
                    assert forall|j: int| at < j < b.active.len() implies (
                    #[trigger] b.active[j]).item_id != id by {
                        if j < i {
                            assert(b.active[j] == a.active[j]);
                        } else {
                            assert(b.active[j] == a.active[j + 1]);
                        }
                    }
                    lemma_slot_is(b.active, id, at);
                },
                None => {},
            }
        }
    }
}

/// A call that is said to be done becomes a call of the answer, with the
/// identifier and the name that it was announced with and the arguments that
/// have come in, whatever the event says of them.
pub proof fn law_done_calls_are_the_announced_ones(a: AnswerView, data: JsonView)
    requires
        data.get("item"@) matches Some(item) && is_call(item) && slot(
            a.active,
            text_or(item, "id"@, ""@),
        ) is Some,
    ensures
        ({
            let id = text_or(data.get("item"@)->0, "id"@, ""@);
            let x = a.active[slot(a.active, id)->0];
            let b = after_event(a, "response.output_item.done"@, data)->Ok_0;
            &&& after_event(a, "response.output_item.done"@, data) is Ok
            &&& x.name.len() > 0 ==> b.calls == a.calls.push(
                CallView {
                    id: x.call_id,
                    name: x.name,
                    arguments: arguments_of(x.arguments),
                    reasoning: None,
                    signature: None,
                },
            )
            &&& x.name.len() == 0 ==> b.calls == a.calls
        }),
{
    lemma_event_kinds();
}

proof fn lemma_event_kinds()
    ensures
        "response.output_item.done"@ != "response.output_text.delta"@,
        "response.output_item.done"@ != "response.output_item.added"@,
        "response.output_item.done"@ != "response.function_call_arguments.delta"@,
        "response.output_item.done"@ != "response.function_call_arguments.done"@,
{
    reveal_strlit("response.output_item.done");
    reveal_strlit("response.output_text.delta");
    reveal_strlit("response.output_item.added");
    reveal_strlit("response.function_call_arguments.delta");
    reveal_strlit("response.function_call_arguments.done");
    assert("response.output_item.done"@[21] == 'd');
    assert("response.output_item.added"@[21] == 'a');
    assert("response.output_item.done"@[16] == 'i');
    assert("response.output_text.delta"@[16] == 't');
}

/// An answer after some events, or the reason why there will be none.
pub open spec fn after_events(a: AnswerView, es: Seq<(Seq<char>, JsonView)>) -> Result<
    AnswerView,
    Seq<char>,
>
    decreases es.len(),
{
    if es.len() == 0 {
        Ok(a)
    } else {
        match after_events(a, es.drop_last()) {
            Ok(b) => after_event(b, es.last().0, es.last().1),
            Err(e) => Err(e),
        }
    }
}

proof fn lemma_kept_through(
    a: AnswerView,
    es: Seq<(Seq<char>, JsonView)>,
    id: Seq<char>,
)
    requires
        slot(a.active, id) is Some,
        after_events(a, es) is Ok,
        forall|i: int| 0 <= i < es.len() ==> !touches((#[trigger] es[i]).0, es[i].1, id),
    ensures
        ({
            let b = after_events(a, es)->Ok_0;
            &&& slot(b.active, id) is Some
            &&& b.active[slot(b.active, id)->0].call_id == a.active[slot(a.active, id)->0].call_id
            &&& b.active[slot(b.active, id)->0].name == a.active[slot(a.active, id)->0].name
        }),
    decreases es.len(),
{
    if es.len() > 0 {
        let front = es.drop_last();
        assert forall|i: int| 0 <= i < front.len() implies !touches(
            (#[trigger] front[i]).0,
            front[i].1,
            id,
        ) by {
            assert(front[i] == es[i]);
        }
        lemma_kept_through(a, front, id);
        let b = after_events(a, front)->Ok_0;
        let n = es.len() - 1;
        assert(!touches(es[n].0, es[n].1, id));
        law_calls_keep_their_identifiers(b, es[n].0, es[n].1, id);
    }
}

/// A call goes round: the identifier with which the service announces it is the
/// one that the answer's call has once the service says that it is done, whatever
/// comes in between, and the one that is sent back with it.
pub proof fn law_call_ids_go_round(
    a: AnswerView,
    item: JsonView,
    between: Seq<(Seq<char>, JsonView)>,
    done: JsonView,
    id: Seq<char>,
    call_id: Seq<char>,
    name: Seq<char>,
)
    requires
        is_call(item),
        item.str_at("id"@) == Some(id),
        item.str_at("call_id"@) == Some(call_id),
        item.str_at("name"@) == Some(name),
        name.len() > 0,
        is_call(done),
        done.str_at("id"@) == Some(id),
        forall|i: int|
            0 <= i < between.len() ==> !touches((#[trigger] between[i]).0, between[i].1, id),
        after_events(announced_in(a, item), between) is Ok,
    ensures
        ({
            let b = after_events(announced_in(a, item), between)->Ok_0;
            let c = after_event(b, "response.output_item.done"@, item_event(done))->Ok_0;
            &&& c.calls.len() == b.calls.len() + 1
            &&& c.calls.last().id == call_id
            &&& c.calls.last().name == name
            &&& call_item(c.calls.last()).str_at("call_id"@) == Some(call_id)
        }),
{
    let x = announced(item);
    assert(item.get("id"@) is Some);
    assert(x.item_id == id && x.call_id == call_id && x.name == name);
    let a1 = announced_in(a, item);
    lemma_slot(a.active, id);
    match slot(a.active, id) {
        Some(i) => {
            lemma_slot_is(a1.active, id, i);
        },
        None => {
            lemma_slot_is(a1.active, id, a.active.len() as int);
        },
    }
    lemma_kept_through(a1, between, id);
    let b = after_events(a1, between)->Ok_0;
    assert(item_event(done).get("item"@) == Some(done));
    law_done_calls_are_the_announced_ones(b, item_event(done));
    let c = after_event(b, "response.output_item.done"@, item_event(done))->Ok_0;
    law_call_ids_are_sent_back(c.calls.last(), seq![], seq![]);
}

/// An answer after the event that announces a call.
pub open spec fn announced_in(a: AnswerView, item: JsonView) -> AnswerView {
    AnswerView { active: with_active(a.active, announced(item)), ..a }
}

/// The data of an event that is about an item.
pub open spec fn item_event(item: JsonView) -> JsonView {
    JsonView::Object(Map::empty().insert("item"@, item))
}

/// Arguments that are no JSON text are sent back as they came.
pub proof fn law_unreadable_arguments_are_sent_back(s: Seq<char>)
    requires
        read_tree(s) is None,
    ensures
        argument_text(arguments_of(s)) == s,
{
}

/// The texts that some events carry under `delta`, one behind the other.
pub open spec fn delta_text(deltas: Seq<JsonView>) -> Seq<char>
    decreases deltas.len(),
{
    if deltas.len() == 0 {
        seq![]
    } else {
        delta_text(deltas.drop_last()) + text_or(deltas.last(), "delta"@, seq![])
    }
}

/// The call with an identifier, of those that are coming in.
pub open spec fn coming_in(a: AnswerView, id: Seq<char>) -> ActiveView {
    a.active[slot(a.active, id)->0]
}

/// An event that carries a piece of a call's arguments puts it behind those that
/// have come in; one that carries all of them takes their place, whatever had come
/// in before. Neither changes anything else of the answer.
pub proof fn law_arguments_come_in(a: AnswerView, data: JsonView, id: Seq<char>, s: Seq<char>)
    requires
        slot(a.active, id) is Some,
        data.str_at("item_id"@) == Some(id),
    ensures
        data.str_at("delta"@) == Some(s) ==> {
            &&& after_event(a, "response.function_call_arguments.delta"@, data) matches Ok(b)
            &&& slot(b.active, id) is Some
            &&& coming_in(b, id) == ActiveView {
                arguments: coming_in(a, id).arguments + s,
                ..coming_in(a, id)
            }
            &&& b == AnswerView { active: b.active, ..a }
        },
        data.str_at("arguments"@) == Some(s) ==> {
            &&& after_event(a, "response.function_call_arguments.done"@, data) matches Ok(b)
            &&& slot(b.active, id) is Some
            &&& coming_in(b, id) == ActiveView { arguments: s, ..coming_in(a, id) }
            &&& b == AnswerView { active: b.active, ..a }
        },
{
    lemma_kinds_apart();
    lemma_slot(a.active, id);
    let i = slot(a.active, id)->0;
    if data.str_at("delta"@) == Some(s) {
        let b = after_event(a, "response.function_call_arguments.delta"@, data)->Ok_0;
        lemma_slot_is(b.active, id, i);
    }
    if data.str_at("arguments"@) == Some(s) {
        let b = after_event(a, "response.function_call_arguments.done"@, data)->Ok_0;
        lemma_slot_is(b.active, id, i);
    }
}

/// The events that carry pieces of a call's arguments.
pub open spec fn delta_events(deltas: Seq<JsonView>) -> Seq<(Seq<char>, JsonView)> {
    deltas.map_values(|d: JsonView| ("response.function_call_arguments.delta"@, d))
}

proof fn lemma_deltas_come_in(a: AnswerView, deltas: Seq<JsonView>, id: Seq<char>)
    requires
        slot(a.active, id) is Some,
        forall|i: int|
            0 <= i < deltas.len() ==> (#[trigger] deltas[i]).str_at("item_id"@) == Some(id)
                && deltas[i].str_at("delta"@) is Some,
    ensures
        after_events(a, delta_events(deltas)) matches Ok(b) && {
            &&& slot(b.active, id) is Some
            &&& coming_in(b, id) == ActiveView {
                arguments: coming_in(a, id).arguments + delta_text(deltas),
                ..coming_in(a, id)
            }
            &&& b == AnswerView { active: b.active, ..a }
        },
    decreases deltas.len(),
{
    if deltas.len() == 0 {
        assert(coming_in(a, id).arguments + delta_text(deltas) =~= coming_in(a, id).arguments);
    } else {
        let front = deltas.drop_last();
        assert forall|i: int| 0 <= i < front.len() implies (#[trigger] front[i]).str_at(
            "item_id"@,
        ) == Some(id) && front[i].str_at("delta"@) is Some by {
            assert(front[i] == deltas[i]);
        }
        lemma_deltas_come_in(a, front, id);
        assert(delta_events(deltas).drop_last() =~= delta_events(front));
        let b = after_events(a, delta_events(front))->Ok_0;
        let n = deltas.len() - 1;
        assert(deltas[n].str_at("item_id"@) == Some(id));
        let s = deltas[n].str_at("delta"@)->0;
        law_arguments_come_in(b, deltas[n], id, s);
        assert(coming_in(a, id).arguments + delta_text(front) + s =~= coming_in(a, id).arguments
            + delta_text(deltas));
    }
}

/// A call from its announcement to its end: it becomes the last call of the answer,
/// with the identifier and the name that it was announced with. Its arguments are
/// those that the event that carries all of them has, where there is one, and else
/// the pieces that came in, in their order.
pub proof fn law_calls_come_in_whole(
    a: AnswerView,
    added: JsonView,
    item: JsonView,
    deltas: Seq<JsonView>,
    whole: Option<JsonView>,
    ended: JsonView,
    done: JsonView,
    id: Seq<char>,
    call_id: Seq<char>,
    name: Seq<char>,
)
    requires
        added.get("item"@) == Some(item),
        item.str_at("type"@) == Some("function_call"@),
        item.str_at("id"@) == Some(id),
        item.str_at("call_id"@) == Some(call_id),
        item.str_at("name"@) == Some(name),
        name.len() > 0,
        forall|i: int|
            0 <= i < deltas.len() ==> (#[trigger] deltas[i]).str_at("item_id"@) == Some(id)
                && deltas[i].str_at("delta"@) is Some,
        whole matches Some(w) ==> w.str_at("item_id"@) == Some(id) && w.str_at("arguments"@)
            is Some,
        ended.get("item"@) == Some(done),
        done.str_at("type"@) == Some("function_call"@),
        done.str_at("id"@) == Some(id),
    ensures
        ({
            let s = match whole {
                Some(w) => w.str_at("arguments"@)->0,
                None => delta_text(deltas),
            };
            let start = after_event(a, "response.output_item.added"@, added);
            &&& start is Ok
            &&& after_events(start->Ok_0, delta_events(deltas)) is Ok
            &&& ({
                let b = after_events(start->Ok_0, delta_events(deltas))->Ok_0;
                let c = match whole {
                    Some(w) => after_event(b, "response.function_call_arguments.done"@, w),
                    None => Ok(b),
                };
                &&& c is Ok
                &&& after_event(c->Ok_0, "response.output_item.done"@, ended) matches Ok(d)
                &&& d.calls == a.calls.push(
                    CallView {
                        id: call_id,
                        name,
                        arguments: match read_tree(s) {
                            Some(v) => v,
                            None => JsonView::Text(s),
                        },
                        reasoning: None,
                        signature: None,
                    },
                )
                &&& d.text == a.text
            })
        }),
{
    lemma_kinds_apart();
    let start = after_event(a, "response.output_item.added"@, added)->Ok_0;
    assert(item.get("id"@) is Some);
    let x = announced(item);
    assert(x.item_id == id && x.call_id == call_id && x.name == name);
    lemma_slot(a.active, id);
    match slot(a.active, id) {
        Some(i) => {
            lemma_slot_is(start.active, id, i);
        },
        None => {
            lemma_slot_is(start.active, id, a.active.len() as int);
        },
    }
    assert(coming_in(start, id) == x);
    reveal_strlit("");
    lemma_deltas_come_in(start, deltas, id);
    let b = after_events(start, delta_events(deltas))->Ok_0;
    assert(x.arguments + delta_text(deltas) =~= delta_text(deltas));
    let c = match whole {
        Some(w) => {
            law_arguments_come_in(b, w, id, w.str_at("arguments"@)->0);
            after_event(b, "response.function_call_arguments.done"@, w)->Ok_0
        },
        None => b,
    };
    law_done_calls_are_the_announced_ones(c, ended);
}

/// A call that is said to be done without having been announced becomes a call of
/// the answer with what the event says of it: its identifier is the call's or else
/// the item's, and its arguments are an empty object where none are given.
pub proof fn law_unannounced_calls_stand_for_themselves(
    a: AnswerView,
    ended: JsonView,
    item: JsonView,
    name: Seq<char>,
)
    requires
        ended.get("item"@) == Some(item),
        item.str_at("type"@) == Some("function_call"@),
        slot(a.active, text_or(item, "id"@, ""@)) is None,
        item.str_at("name"@) == Some(name),
        name.len() > 0,
    ensures
        after_event(a, "response.output_item.done"@, ended) matches Ok(b) && {
            let s = match item.str_at("arguments"@) {
                Some(s) => s,
                None => "{}"@,
            };
            &&& b.calls == a.calls.push(
                CallView {
                    id: match item.str_at("call_id"@) {
                        Some(c) => c,
                        None => match item.str_at("id"@) {
                            Some(i) => i,
                            None => ""@,
                        },
                    },
                    name,
                    arguments: match read_tree(s) {
                        Some(v) => v,
                        None => JsonView::Text(s),
                    },
                    reasoning: None,
                    signature: None,
                },
            )
            &&& b.active == a.active
            &&& b.text == a.text
        },
{
    lemma_kinds_apart();
}

/// A call is announced under the item's identifier, or under the call's where the
/// item has none; the call's identifier is the item's where it has none of its own.
/// No arguments have come in then.
pub proof fn law_announced_calls_have_identifiers(item: JsonView)
    ensures
        item.get("id"@) is None ==> announced(item).item_id == text_or(item, "call_id"@, ""@),
        item.str_at("id"@) matches Some(id) ==> announced(item).item_id == id,
        item.str_at("call_id"@) matches Some(c) ==> announced(item).call_id == c,
        item.str_at("call_id"@) is None ==> announced(item).call_id == announced(item).item_id,
        announced(item).name == text_or(item, "name"@, ""@),
        announced(item).arguments.len() == 0,
{
    reveal_strlit("");
}

/// The event that says that an answer is complete gives its status and, where it
/// carries them, the tokens that were used, as far as the numbers go. It changes
/// nothing else.
pub proof fn law_completion_gives_the_usage(a: AnswerView, data: JsonView, response: JsonView)
    requires
        data.get("response"@) == Some(response),
    ensures
        after_event(a, "response.completed"@, data) matches Ok(b) && {
            &&& b.text == a.text && b.calls == a.calls && b.active == a.active
            &&& b.status == response.str_at("status"@)
            &&& match response.get("usage"@) {
                None => b.input_tokens == a.input_tokens && b.output_tokens == a.output_tokens,
                Some(u) => {
                    &&& (u.get("input_tokens"@) matches Some(n) && n.as_u64() is Some)
                        ==> b.input_tokens == if u.get("input_tokens"@)->0.as_u64()->0
                        <= 0xffff_ffff {
                        u.get("input_tokens"@)->0.as_u64()->0 as int
                    } else {
                        0xffff_ffff
                    }
                    &&& !(u.get("input_tokens"@) matches Some(n) && n.as_u64() is Some)
                        ==> b.input_tokens == 0
                    &&& (u.get("output_tokens"@) matches Some(n) && n.as_u64() is Some)
                        ==> b.output_tokens == if u.get("output_tokens"@)->0.as_u64()->0
                        <= 0xffff_ffff {
                        u.get("output_tokens"@)->0.as_u64()->0 as int
                    } else {
                        0xffff_ffff
                    }
                    &&& !(u.get("output_tokens"@) matches Some(n) && n.as_u64() is Some)
                        ==> b.output_tokens == 0
                },
            }
        },
{
    lemma_kinds_apart();
}

/// An event that reports a failure ends the answer with what it says of it.
pub proof fn law_failures_are_reported(
    a: AnswerView,
    data: JsonView,
    response: JsonView,
    details: JsonView,
    error: JsonView,
    message: Seq<char>,
)
    ensures
        after_event(a, "response.failed"@, data) is Err,
        after_event(a, "error"@, data) is Err,
        data.get("response"@) == Some(response) && response.get("status_details"@) == Some(details)
            && details.get("error"@) == Some(error) && error.str_at("message"@) == Some(message)
            ==> after_event(a, "response.failed"@, data) == Err::<AnswerView, Seq<char>>(
            "Response failed: "@ + message,
        ),
        data.get("response"@) is None ==> after_event(a, "response.failed"@, data) == Err::<
            AnswerView,
            Seq<char>,
        >("Response failed: "@ + "Unknown error"@),
        after_event(a, "error"@, data) == Err::<AnswerView, Seq<char>>(
            "Error "@ + (match data.str_at("code"@) {
                Some(c) => c,
                None => "unknown"@,
            }) + ": "@ + (match data.str_at("message"@) {
                Some(m) => m,
                None => "Unknown error"@,
            }),
        ),
{
    lemma_kinds_apart();
}

/// An event of another kind changes nothing, nor does one that is about an item
/// that is no call.
pub proof fn law_other_events_change_nothing(a: AnswerView, kind: Seq<char>, data: JsonView)
    ensures
        kind != "response.output_text.delta"@ && kind != "response.output_item.added"@ && kind != "response.function_call_arguments.delta"@ && kind != "response.function_call_arguments.done"@ && kind != "response.output_item.done"@ && kind != "response.completed"@ && kind != "response.failed"@ && kind != "error"@ ==> after_event(a, kind, data) == Ok::<AnswerView, Seq<char>>(a),
        kind == "response.output_item.added"@ || kind == "response.output_item.done"@ ==> (
        data.get("item"@) matches Some(item) && item.str_at("type"@) != Some("function_call"@))
            ==> after_event(a, kind, data) == Ok::<AnswerView, Seq<char>>(a),
{
    lemma_kinds_apart();
}

/// What a model said is the text that came in, the calls that were done and behind
/// them those that never were, in their order and without those that have no name,
/// and the tokens that were counted. It stopped to have tools called where there
/// are calls, for want of room where the service says that the answer is incomplete,
/// and of itself otherwise.
pub proof fn law_responses_hold_what_came_in(a: AnswerView)
    ensures
        response_of(a).text_content == a.text,
        response_of(a).input_tokens == a.input_tokens,
        response_of(a).output_tokens == a.output_tokens,
        response_of(a).tool_calls == a.calls + a.active.filter(
            |x: ActiveView| x.name.len() > 0,
        ).map_values(|x: ActiveView| call_of(x)),
        response_of(a).finish_reason == if response_of(a).tool_calls.len() > 0 {
            FinishReason::ToolUse
        } else if a.status == Some("incomplete"@) {
            FinishReason::Length
        } else {
            FinishReason::Stop
        },
{
    lemma_unfinished(a.calls, a.active);
}

proof fn lemma_unfinished(calls: Seq<CallView>, active: Seq<ActiveView>)
    ensures
        with_unfinished(calls, active) == calls + active.filter(
            |x: ActiveView| x.name.len() > 0,
        ).map_values(|x: ActiveView| call_of(x)),
    decreases active.len(),
{
    reveal(Seq::filter);
    let named = |x: ActiveView| x.name.len() > 0;
    let made = |x: ActiveView| call_of(x);
    if active.len() == 0 {
        assert(calls + active.filter(named).map_values(made) =~= calls);
    } else {
        let front = active.drop_last();
        lemma_unfinished(calls, front);
        if active.last().name.len() > 0 {
            assert(active.filter(named) =~= front.filter(named).push(active.last()));
        } else {
            assert(active.filter(named) =~= front.filter(named));
        }
        assert(with_unfinished(calls, active) =~= calls + active.filter(named).map_values(made));
    }
}

/// The call that has come in has the identifier, the name and the arguments that
/// came in: the value that the arguments spell, or the text where they spell none.
pub proof fn law_calls_are_what_came_in(x: ActiveView)
    ensures
        call_of(x).id == x.call_id,
        call_of(x).name == x.name,
        read_tree(x.arguments) matches Some(v) ==> call_of(x).arguments == v,
        read_tree(x.arguments) is None ==> call_of(x).arguments == JsonView::Text(x.arguments),
{
}

/// A line carries what stands behind `data:`, without white space around it, and
/// other lines carry nothing.
pub proof fn law_lines_carry_data(line: Seq<char>, rest: Seq<char>)
    ensures
        trim(line) == "data:"@ + rest ==> payload(line) == Some(trim(rest)),
        !starts_with(trim(line), "data:"@) ==> payload(line) is None,
{
    reveal_strlit("data:");
    if trim(line) == "data:"@ + rest {
        assert((("data:"@) + rest).subrange(0, 5) =~= "data:"@);
        assert((("data:"@) + rest).skip(5) =~= rest);
    }
}

/// A line changes an answer by the event that it carries: an object that names its
/// kind once. A line that carries none leaves the answer as it is, and one that
/// carries `[DONE]` ends the stream.
pub proof fn law_streams_are_their_events(
    a: AnswerView,
    line: Seq<char>,
    more: Seq<Seq<char>>,
    p: Seq<char>,
)
    ensures
        payload(line) is None ==> after_line(a, line) == Ok::<AnswerView, Seq<char>>(a),
        payload(line) == Some(p) && read_tree(p) is None ==> after_line(a, line) == Ok::<
            AnswerView,
            Seq<char>,
        >(a),
        payload(line) == Some(p) && read_tree(p) is Some ==> {
            let v = read_tree(p)->0;
            if v.str_at("type"@) is Some && names_once(p, "type"@) {
                after_line(a, line) == after_event(a, v.str_at("type"@)->0, v)
            } else {
                after_line(a, line) == Ok::<AnswerView, Seq<char>>(a)
            }
        },
        payload(line) == Some("[DONE]"@) ==> after_lines(a, seq![line] + more) == Ok::<
            AnswerView,
            Seq<char>,
        >(a),
        payload(line) != Some("[DONE]"@) ==> after_lines(a, seq![line] + more) == match after_line(
            a,
            line,
        ) {
            Ok(b) => after_lines(b, more),
            Err(e) => Err(e),
        },
{
    assert((seq![line] + more).first() == line);
    assert((seq![line] + more).drop_first() =~= more);
}

/// A stream begins with an empty answer and says what comes of its lines, one after
/// another; the provider is named where there is none.
pub proof fn law_stream_outcomes(provider: Seq<char>, body: Seq<char>)
    ensures
        match after_lines(no_answer(), lines(body)) {
            Ok(a) => stream_outcome(provider, body) == Ok::<ResponseView, LlmErrorView>(
                response_of(a),
            ),
            Err(e) => stream_outcome(provider, body) == Err::<ResponseView, LlmErrorView>(
                LlmErrorView::RequestFailed(provider, e),
            ),
        },
        no_answer().text.len() == 0,
        no_answer().calls.len() == 0,
        no_answer().active.len() == 0,
        no_answer().input_tokens == 0,
        no_answer().output_tokens == 0,
        no_answer().status is None,
{
}

proof fn lemma_kinds_apart()
    ensures
        "response.output_text.delta"@ != "response.output_item.added"@,
        "response.output_text.delta"@ != "response.function_call_arguments.delta"@,
        "response.output_text.delta"@ != "response.function_call_arguments.done"@,
        "response.output_text.delta"@ != "response.output_item.done"@,
        "response.output_text.delta"@ != "response.completed"@,
        "response.output_text.delta"@ != "response.failed"@,
        "response.output_text.delta"@ != "error"@,
        "response.output_item.added"@ != "response.function_call_arguments.delta"@,
        "response.output_item.added"@ != "response.function_call_arguments.done"@,
        "response.output_item.added"@ != "response.output_item.done"@,
        "response.output_item.added"@ != "response.completed"@,
        "response.output_item.added"@ != "response.failed"@,
        "response.output_item.added"@ != "error"@,
        "response.function_call_arguments.delta"@ != "response.function_call_arguments.done"@,
        "response.function_call_arguments.delta"@ != "response.output_item.done"@,
        "response.function_call_arguments.delta"@ != "response.completed"@,
        "response.function_call_arguments.delta"@ != "response.failed"@,
        "response.function_call_arguments.delta"@ != "error"@,
        "response.function_call_arguments.done"@ != "response.output_item.done"@,
        "response.function_call_arguments.done"@ != "response.completed"@,
        "response.function_call_arguments.done"@ != "response.failed"@,
        "response.function_call_arguments.done"@ != "error"@,
        "response.output_item.done"@ != "response.completed"@,
        "response.output_item.done"@ != "response.failed"@,
        "response.output_item.done"@ != "error"@,
        "response.completed"@ != "response.failed"@,
        "response.completed"@ != "error"@,
        "response.failed"@ != "error"@,
{
    reveal_strlit("response.output_text.delta");
    reveal_strlit("response.output_item.added");
    reveal_strlit("response.function_call_arguments.delta");
    reveal_strlit("response.function_call_arguments.done");
    reveal_strlit("response.output_item.done");
    reveal_strlit("response.completed");
    reveal_strlit("response.failed");
    reveal_strlit("error");
    assert("error"@.len() == 5);
    assert("response.completed"@.len() == 18);
    assert("response.failed"@.len() == 15);
    assert("response.function_call_arguments.delta"@.len() == 38);
    assert("response.function_call_arguments.done"@.len() == 37);
    assert("response.output_item.added"@.len() == 26);
    assert("response.output_item.added"@[16] == 'i');
    assert("response.output_item.done"@.len() == 25);
    assert("response.output_text.delta"@.len() == 26);
    assert("response.output_text.delta"@[16] == 't');
}

} // verus!

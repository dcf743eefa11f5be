//! What a request says to a model.

use vstd::prelude::*;

use crate::json::{items_view, lemma_items_push, put, Json, JsonView};
use crate::json::int_number;
use crate::json_text::written;
use crate::openai_responses::types::{call_views, message_views, part_views, tool_views};
use crate::openai_responses::types::{CallView, ChatMessage, ContentPart, MessageView, PartView};
use crate::openai_responses::types::{plain_message, Role, ToolCall, ToolDefinition, ToolView};
use crate::text::{chars_of, opt_str, push_text, string_of};

verus! {

/// Whether a character can stand in the name of a tool.
pub open spec fn is_tool_char(c: char) -> bool {
    ||| '0' <= c <= '9'
    ||| 'A' <= c <= 'Z'
    ||| 'a' <= c <= 'z'
    ||| c == '_'
    ||| c == '-'
}

/// The name of a tool as the service takes it: with `_` in place of every other
/// character.
pub open spec fn tool_name(name: Seq<char>) -> Seq<char> {
    name.map_values(
        |c: char|
            if is_tool_char(c) {
                c
            } else {
                '_'
            },
    )
}

/// The name of a tool as the service takes it.
pub fn sanitize_tool_name(name: &str) -> (r: String)
    ensures
        r@ == tool_name(name@),
{
    let chars = chars_of(name);
    let mut out: Vec<char> = Vec::new();
    let mut i: usize = 0;
    while i < chars.len()
        invariant
            i <= chars@.len(),
            chars@ == name@,
            out@ == tool_name(name@).take(i as int),
        decreases chars@.len() - i,
    {
        let c = chars[i];
        let fits = ('0' <= c && c <= '9') || ('A' <= c && c <= 'Z') || ('a' <= c && c <= 'z') || c
            == '_' || c == '-';
        out.push(
            if fits {
                c
            } else {
                '_'
            },
        );
        i += 1;
        assert(out@ =~= tool_name(name@).take(i as int));
    }
    assert(out@ =~= tool_name(name@));
    string_of(out.as_slice())
}

/// A name that the service takes has only letters, digits, `_` and `-`, is as
/// long as the tool's own, and is left as it is when it is made once more.
pub proof fn law_tool_names_fit_the_service(name: Seq<char>)
    ensures
        tool_name(name).len() == name.len(),
        forall|i: int| 0 <= i < name.len() ==> is_tool_char(#[trigger] tool_name(name)[i]),
        tool_name(tool_name(name)) == tool_name(name),
{
    assert(tool_name(tool_name(name)) =~= tool_name(name));
}

/// A part that is text.
pub open spec fn text_part(kind: Seq<char>, text: Seq<char>) -> JsonView {
    JsonView::Object(
        Map::empty().insert("type"@, JsonView::Text(kind)).insert("text"@, JsonView::Text(text)),
    )
}

/// A part that is an image.
pub open spec fn image_part(url: Seq<char>) -> JsonView {
    JsonView::Object(
        Map::empty().insert("type"@, JsonView::Text("input_image"@)).insert(
            "image_url"@,
            JsonView::Text(url),
        ),
    )
}

/// A message of the input.
pub open spec fn message_item(role: Seq<char>, content: Seq<JsonView>) -> JsonView {
    JsonView::Object(
        Map::empty().insert("type"@, JsonView::Text("message"@)).insert(
            "role"@,
            JsonView::Text(role),
        ).insert("content"@, JsonView::Array(content)),
    )
}

/// The arguments of a call as text.
pub open spec fn argument_text(arguments: JsonView) -> Seq<char> {
    match arguments {
        JsonView::Text(s) => s,
        v => written(v),
    }
}

/// A call of the input.
pub open spec fn call_item(call: CallView) -> JsonView {
    JsonView::Object(
        Map::empty().insert("type"@, JsonView::Text("function_call"@)).insert(
            "call_id"@,
            JsonView::Text(call.id),
        ).insert("name"@, JsonView::Text(tool_name(call.name))).insert(
            "arguments"@,
            JsonView::Text(argument_text(call.arguments)),
        ),
    )
}

/// What a tool gave for a call.
pub open spec fn output_item(call_id: Seq<char>, output: Seq<char>) -> JsonView {
    JsonView::Object(
        Map::empty().insert("type"@, JsonView::Text("function_call_output"@)).insert(
            "call_id"@,
            JsonView::Text(call_id),
        ).insert("output"@, JsonView::Text(output)),
    )
}

/// A part of what a user says.
pub open spec fn input_part(p: PartView) -> JsonView {
    match p {
        PartView::Text(t) => text_part("input_text"@, t),
        PartView::Image(url) => image_part(url),
    }
}

/// The parts of what a user says.
pub open spec fn user_content(m: MessageView) -> Seq<JsonView> {
    let own = seq![text_part("input_text"@, m.content)];
    if m.content_parts.len() == 0 {
        own
    } else {
        let parts = m.content_parts.map_values(|p: PartView| input_part(p));
        if m.content.len() > 0 {
            own + parts
        } else {
            parts
        }
    }
}

/// A text that a model said.
pub open spec fn said_item(content: Seq<char>) -> JsonView {
    message_item("assistant"@, seq![text_part("output_text"@, content)])
}

/// The items of the input that a message becomes.
pub open spec fn items_of(m: MessageView) -> Seq<JsonView> {
    match m.role {
        Role::System => seq![],
        Role::User => seq![message_item("user"@, user_content(m))],
        Role::Assistant => match m.tool_calls {
            Some(calls) => {
                let items = calls.map_values(|c: CallView| call_item(c));
                if m.content.len() > 0 {
                    seq![said_item(m.content)] + items
                } else {
                    items
                }
            },
            None => seq![said_item(m.content)],
        },
        Role::Tool => seq![
            output_item(
                match m.tool_call_id {
                    Some(id) => id,
                    None => seq![],
                },
                m.content,
            ),
        ],
    }
}

fn text_part_json(kind: &str, text: &str) -> (r: Json)
    ensures
        r@ == text_part(kind@, text@),
{
    let mut out: Vec<(String, Json)> = Vec::new();
    put(&mut out, "type", Json::text(kind));
    put(&mut out, "text", Json::text(text));
    Json::Object(out)
}

fn part_json(part: &ContentPart) -> (r: Json)
    ensures
        r@ == input_part(part@),
{
    match part {
        ContentPart::Text { text } => text_part_json("input_text", text.as_str()),
        ContentPart::ImageUrl { image_url } => {
            let mut out: Vec<(String, Json)> = Vec::new();
            put(&mut out, "type", Json::text("input_image"));
            put(&mut out, "image_url", Json::text(image_url.url.as_str()));
            Json::Object(out)
        },
    }
}

fn message_json(role: &str, content: Vec<Json>) -> (r: Json)
    ensures
        r@ == message_item(role@, items_view(content@)),
{
    let mut out: Vec<(String, Json)> = Vec::new();
    put(&mut out, "type", Json::text("message"));
    put(&mut out, "role", Json::text(role));
    put(&mut out, "content", Json::Array(content));
    Json::Object(out)
}

fn said_json(content: &str) -> (r: Json)
    ensures
        r@ == said_item(content@),
{
    let mut parts: Vec<Json> = Vec::new();
    let part = text_part_json("output_text", content);
    proof {
        lemma_items_push(parts@, part);
        assert(items_view(parts@).push(part@) =~= seq![part@]);
    }
    parts.push(part);
    message_json("assistant", parts)
}

fn call_json(call: &ToolCall) -> (r: Json)
    ensures
        r@ == call_item(call@),
{
    let arguments = match &call.arguments {
        Json::Text(s) => s.clone(),
        _ => call.arguments.write(),
    };
    let mut out: Vec<(String, Json)> = Vec::new();
    put(&mut out, "type", Json::text("function_call"));
    put(&mut out, "call_id", Json::text(call.id.as_str()));
    put(&mut out, "name", Json::Text(sanitize_tool_name(call.name.as_str())));
    put(&mut out, "arguments", Json::Text(arguments));
    Json::Object(out)
}

/// The parts of what a user says.
fn user_parts(message: &ChatMessage) -> (r: Vec<Json>)
    ensures
        items_view(r@) == user_content(message@),
{
    let ghost m = message@;
    let ghost parts = m.content_parts.map_values(|p: PartView| input_part(p));
    let mut out: Vec<Json> = Vec::new();
    let empty = chars_of(message.content.as_str()).len() == 0;
    let n: usize = message.content_parts.len();
    assert(m.content_parts.len() == n);
    if n == 0 || !empty {
        let own = text_part_json("input_text", message.content.as_str());
        proof {
            lemma_items_push(out@, own);
            assert(items_view(out@).push(own@) =~= seq![own@]);
        }
        out.push(own);
    }
    let ghost head = items_view(out@);
    let mut i: usize = 0;
    assert(head + parts.take(0) =~= head);
    while i < n
        invariant
            i <= n,
            n == message.content_parts@.len(),
            parts == part_views(message.content_parts@).map_values(|p: PartView| input_part(p)),
            items_view(out@) == head + parts.take(i as int),
        decreases n - i,
    {
        let part = part_json(&message.content_parts[i]);
        proof {
            lemma_items_push(out@, part);
            assert(part_views(message.content_parts@)[i as int] == message.content_parts@[i as int]@);
            assert(parts[i as int] == part@);
            assert((head + parts.take(i as int)).push(part@) =~= head + parts.take(i + 1));
        }
        out.push(part);
        i += 1;
    }
    assert(head + parts.take(n as int) =~= head + parts);
    assert(items_view(out@) =~= user_content(m));
    out
}

/// The items of the input that a message becomes.
pub fn convert_message(message: &ChatMessage) -> (r: Vec<Json>)
    ensures
        items_view(r@) == items_of(message@),
{
    let mut out: Vec<Json> = Vec::new();
    assert(items_view(out@) =~= Seq::<JsonView>::empty());
    match message.role {
        Role::System => {},
        Role::User => {
            let item = message_json("user", user_parts(message));
            push_item(&mut out, item);
        },
        Role::Assistant => match &message.tool_calls {
            Some(calls) => {
                let ghost items = call_views(calls@).map_values(|c: CallView| call_item(c));
                if chars_of(message.content.as_str()).len() > 0 {
                    push_item(&mut out, said_json(message.content.as_str()));
                }
                let ghost head = items_view(out@);
                let mut i: usize = 0;
                assert(head + items.take(0) =~= head);
                while i < calls.len()
                    invariant
                        i <= calls@.len(),
                        items == call_views(calls@).map_values(|c: CallView| call_item(c)),
                        items_view(out@) == head + items.take(i as int),
                    decreases calls@.len() - i,
                {
                    let item = call_json(&calls[i]);
                    assert(call_views(calls@)[i as int] == calls@[i as int]@);
                    assert(items[i as int] == item@);
                    push_item(&mut out, item);
                    assert((head + items.take(i as int)).push(item@) =~= head + items.take(i + 1));
                    i += 1;
                }
                assert(head + items.take(i as int) =~= head + items);
                assert(items_view(out@) =~= items_of(message@));
            },
            None => {
                push_item(&mut out, said_json(message.content.as_str()));
            },
        },
        Role::Tool => {
            let id = match &message.tool_call_id {
                Some(id) => id.as_str(),
                None => "",
            };
            proof {
                reveal_strlit("");
                assert(""@ =~= Seq::<char>::empty());
            }
            let mut item: Vec<(String, Json)> = Vec::new();
            put(&mut item, "type", Json::text("function_call_output"));
            put(&mut item, "call_id", Json::text(id));
            put(&mut item, "output", Json::text(message.content.as_str()));
            push_item(&mut out, Json::Object(item));
        },
    }
    assert(items_view(out@) =~= items_of(message@));
    out
}

fn push_item(out: &mut Vec<Json>, item: Json)
    ensures
        items_view(final(out)@) == items_view(old(out)@).push(item@),
{
    proof {
        lemma_items_push(out@, item);
    }
    out.push(item);
}

/// A tool as the service takes it.
pub open spec fn tool_item(tool: ToolView) -> JsonView {
    JsonView::Object(
        Map::empty().insert("type"@, JsonView::Text("function"@)).insert(
            "name"@,
            JsonView::Text(tool_name(tool.name)),
        ).insert("description"@, JsonView::Text(tool.description)).insert(
            "parameters"@,
            tool.parameters,
        ),
    )
}

/// A tool as the service takes it.
pub fn convert_tool_definition(tool: &ToolDefinition) -> (r: Json)
    ensures
        r@ == tool_item(tool@),
{
    let mut out: Vec<(String, Json)> = Vec::new();
    put(&mut out, "type", Json::text("function"));
    put(&mut out, "name", Json::Text(sanitize_tool_name(tool.name.as_str())));
    put(&mut out, "description", Json::text(tool.description.as_str()));
    put(&mut out, "parameters", tool.parameters.copy());
    Json::Object(out)
}

/// The tools as the service takes them.
pub open spec fn tool_items(tools: Seq<ToolView>) -> Seq<JsonView> {
    tools.map_values(|t: ToolView| tool_item(t))
}

fn convert_tools(tools: &Vec<ToolDefinition>) -> (r: Vec<Json>)
    ensures
        items_view(r@) == tool_items(tool_views(tools@)),
{
    let ghost all = tool_items(tool_views(tools@));
    let mut out: Vec<Json> = Vec::new();
    let mut i: usize = 0;
    assert(items_view(out@) =~= all.take(0));
    while i < tools.len()
        invariant
            i <= tools@.len(),
            all == tool_items(tool_views(tools@)),
            items_view(out@) == all.take(i as int),
        decreases tools@.len() - i,
    {
        let item = convert_tool_definition(&tools[i]);
        assert(tool_views(tools@)[i as int] == tools@[i as int]@);
        assert(all[i as int] == item@);
        push_item(&mut out, item);
        assert(all.take(i as int).push(item@) =~= all.take(i + 1));
        i += 1;
    }
    assert(all.take(all.len() as int) =~= all);
    out
}

/// What the system says: its messages, with an empty line between them.
pub open spec fn instructions_of(messages: Seq<MessageView>) -> Seq<char> {
    spaced(system_texts(messages))
}

/// The texts of the system's messages.
pub open spec fn system_texts(messages: Seq<MessageView>) -> Seq<Seq<char>>
    decreases messages.len(),
{
    if messages.len() == 0 {
        seq![]
    } else {
        let front = system_texts(messages.drop_last());
        if messages.last().role == Role::System {
            front.push(messages.last().content)
        } else {
            front
        }
    }
}

/// Texts with an empty line between them.
pub open spec fn spaced(s: Seq<Seq<char>>) -> Seq<char>
    decreases s.len(),
{
    if s.len() == 0 {
        seq![]
    } else if s.len() == 1 {
        s[0]
    } else {
        spaced(s.drop_last()) + "\n\n"@ + s.last()
    }
}

/// What the others say: the items that their messages become.
pub open spec fn input_of(messages: Seq<MessageView>) -> Seq<JsonView>
    decreases messages.len(),
{
    if messages.len() == 0 {
        seq![]
    } else {
        input_of(messages.drop_last()) + items_of(messages.last())
    }
}

fn instructions(messages: &Vec<ChatMessage>) -> (r: String)
    ensures
        r@ == instructions_of(message_views(messages@)),
{
    let ghost all = message_views(messages@);
    let mut out: Vec<char> = Vec::new();
    let mut any: bool = false;
    let mut i: usize = 0;
    assert(system_texts(all.take(0)) =~= Seq::<Seq<char>>::empty());
    while i < messages.len()
        invariant
            i <= messages@.len(),
            all == message_views(messages@),
            any == (system_texts(all.take(i as int)).len() > 0),
            out@ == spaced(system_texts(all.take(i as int))),
        decreases messages@.len() - i,
    {
        let ghost before = system_texts(all.take(i as int));
        assert(all.take(i + 1).drop_last() == all.take(i as int));
        assert(all.take(i + 1).last() == messages@[i as int]@);
        if messages[i].role == Role::System {
            let ghost after = before.push(messages@[i as int].content@);
            assert(after.drop_last() == before);
            if any {
                push_text(&mut out, "\n\n");
            }
            push_text(&mut out, messages[i].content.as_str());
            assert(out@ =~= spaced(after));
            any = true;
        }
        i += 1;
    }
    assert(all.take(all.len() as int) == all);
    string_of(out.as_slice())
}

fn input_items(messages: &Vec<ChatMessage>) -> (r: Vec<Json>)
    ensures
        items_view(r@) == input_of(message_views(messages@)),
{
    let ghost all = message_views(messages@);
    let mut out: Vec<Json> = Vec::new();
    let mut i: usize = 0;
    assert(items_view(out@) =~= input_of(all.take(0)));
    while i < messages.len()
        invariant
            i <= messages@.len(),
            all == message_views(messages@),
            items_view(out@) == input_of(all.take(i as int)),
        decreases messages@.len() - i,
    {
        assert(all.take(i + 1).drop_last() == all.take(i as int));
        assert(all.take(i + 1).last() == messages@[i as int]@);
        let items = convert_message(&messages[i]);
        push_items(&mut out, items);
        i += 1;
    }
    assert(all.take(all.len() as int) == all);
    out
}

fn push_items(out: &mut Vec<Json>, items: Vec<Json>)
    ensures
        items_view(final(out)@) == items_view(old(out)@) + items_view(items@),
{
    let ghost head = items_view(out@);
    let ghost all = items_view(items@);
    proof {
        crate::json::lemma_items_view(items@);
        assert(head + all.take(0) =~= head);
    }
    for item in it: items
        invariant
            it.seq() == items@,
            all == items_view(items@),
            all.len() == items@.len(),
            forall|k: int| 0 <= k < items@.len() ==> all[k] == (#[trigger] items@[k])@,
            items_view(out@) == head + all.take(it.index() as int),
    {
        let ghost i = it.index() as int;
        assert(item == items@[i]);
        push_item(out, item);
        assert((head + all.take(i)).push(item@) =~= head + all.take(i + 1));
    }
    assert(all.take(all.len() as int) =~= all);
}

/// The body of a request.
pub open spec fn body_of(
    model: Seq<char>,
    messages: Seq<MessageView>,
    tools: Seq<ToolView>,
    tool_choice: Option<Seq<char>>,
    temperature: Option<JsonView>,
    max_tokens: Option<u32>,
) -> JsonView {
    let m = Map::empty().insert("model"@, JsonView::Text(model)).insert(
        "input"@,
        JsonView::Array(input_of(messages)),
    ).insert("store"@, JsonView::Bool(false)).insert("stream"@, JsonView::Bool(true));
    let m = if instructions_of(messages).len() > 0 {
        m.insert("instructions"@, JsonView::Text(instructions_of(messages)))
    } else {
        m
    };
    let m = match temperature {
        Some(t) => m.insert("temperature"@, t),
        None => m,
    };
    let m = match max_tokens {
        Some(n) => m.insert("max_output_tokens"@, JsonView::Number(int_number(n as int))),
        None => m,
    };
    if tools.len() > 0 {
        JsonView::Object(
            m.insert("tools"@, JsonView::Array(tool_items(tools))).insert(
                "tool_choice"@,
                JsonView::Text(
                    match tool_choice {
                        Some(c) => c,
                        None => "auto"@,
                    },
                ),
            ).insert("parallel_tool_calls"@, JsonView::Bool(true)),
        )
    } else {
        JsonView::Object(m)
    }
}

/// What an optional value is.
pub open spec fn opt_json(o: Option<Json>) -> Option<JsonView> {
    match o {
        Some(v) => Some(v@),
        None => None,
    }
}

/// The body of a request. The temperature is given as the number that is sent.
pub fn build_request_body(
    model: &str,
    messages: &Vec<ChatMessage>,
    tools: &Vec<ToolDefinition>,
    tool_choice: Option<&str>,
    temperature: Option<Json>,
    max_tokens: Option<u32>,
) -> (r: Json)
    ensures
        r@ == body_of(
            model@,
            message_views(messages@),
            tool_views(tools@),
            opt_str(tool_choice),
            opt_json(temperature),
            max_tokens,
        ),
{
    let said = instructions(messages);
    let mut body: Vec<(String, Json)> = Vec::new();
    put(&mut body, "model", Json::text(model));
    put(&mut body, "input", Json::Array(input_items(messages)));
    put(&mut body, "store", Json::Bool(false));
    put(&mut body, "stream", Json::Bool(true));
    if chars_of(said.as_str()).len() > 0 {
        put(&mut body, "instructions", Json::Text(said));
    }
    if let Some(t) = temperature {
        put(&mut body, "temperature", t);
    }
    if let Some(n) = max_tokens {
        put(&mut body, "max_output_tokens", Json::from_u64(n as u64));
    }
    assert(tool_views(tools@).len() == tools@.len());
    if tools.len() > 0 {
        let choice = match tool_choice {
            Some(c) => c,
            None => "auto",
        };
        put(&mut body, "tools", Json::Array(convert_tools(tools)));
        put(&mut body, "tool_choice", Json::text(choice));
        put(&mut body, "parallel_tool_calls", Json::Bool(true));
    }
    Json::Object(body)
}

/// A call and what its tool gave for it carry the same identifier when they are
/// sent back: the one that the call came with.
pub proof fn law_call_ids_are_sent_back(call: CallView, content: Seq<char>, name: Seq<char>)
    ensures
        ({
            let calls = MessageView {
                tool_calls: Some(seq![call]),
                ..plain_message(Role::Assistant, content)
            };
            let result = MessageView {
                tool_call_id: Some(call.id),
                name: Some(name),
                ..plain_message(Role::Tool, content)
            };
            &&& items_of(calls).last() == call_item(call)
            &&& items_of(calls).last().str_at("call_id"@) == Some(call.id)
            &&& items_of(result).len() == 1
            &&& items_of(result)[0].str_at("call_id"@) == Some(call.id)
        }),
{
    lemma_item_keys();
    let items = seq![call].map_values(|c: CallView| call_item(c));
    assert(items =~= seq![call_item(call)]);
}

proof fn lemma_item_keys()
    ensures
        "call_id"@ != "type"@,
        "call_id"@ != "name"@,
        "call_id"@ != "arguments"@,
        "call_id"@ != "output"@,
        "arguments"@ != "type"@,
        "name"@ != "type"@,
        "name"@ != "arguments"@,
{
    reveal_strlit("call_id");
    reveal_strlit("type");
    reveal_strlit("name");
    reveal_strlit("arguments");
    reveal_strlit("output");
    assert("call_id"@[0] == 'c' && "type"@[0] == 't' && "name"@[0] == 'n' && "arguments"@[0] == 'a'
        && "output"@[0] == 'o');
}

/// Every call of a message is sent back, in its place, with its identifier.
pub proof fn law_every_call_is_sent_back(m: MessageView, i: int)
    requires
        m.role == Role::Assistant,
        m.tool_calls matches Some(calls) && 0 <= i < calls.len(),
    ensures
        ({
            let calls = m.tool_calls->0;
            let at = items_of(m).len() - calls.len() + i;
            &&& 0 <= at < items_of(m).len()
            &&& items_of(m)[at].str_at("call_id"@) == Some(calls[i].id)
            &&& items_of(m)[at].str_at("name"@) == Some(tool_name(calls[i].name))
            &&& items_of(m)[at].str_at("arguments"@) == Some(argument_text(calls[i].arguments))
        }),
{
    lemma_item_keys();
    let calls = m.tool_calls->0;
    let items = calls.map_values(|c: CallView| call_item(c));
    let at = items_of(m).len() - calls.len() + i;
    assert(items_of(m)[at] == items[i]);
}

/// The system's messages are instructions and never input: the input is the same
/// without them.
pub proof fn law_instructions_are_no_input(messages: Seq<MessageView>)
    ensures
        input_of(messages) == input_of(
            messages.filter(|m: MessageView| m.role != Role::System),
        ),
    decreases messages.len(),
{
    reveal(Seq::filter);
    let others = |m: MessageView| m.role != Role::System;
    if messages.len() > 0 {
        law_instructions_are_no_input(messages.drop_last());
        let front = messages.drop_last().filter(others);
        if messages.last().role != Role::System {
            assert(messages.filter(others) =~= front.push(messages.last()));
            assert(front.push(messages.last()).drop_last() =~= front);
        } else {
            assert(input_of(messages) =~= input_of(messages.drop_last()));
        }
    }
}

/// The input keeps the order of the conversation: what is said first comes first,
/// and each message becomes its own items.
pub proof fn law_input_keeps_the_order(a: Seq<MessageView>, b: Seq<MessageView>, m: MessageView)
    ensures
        input_of(a + b) == input_of(a) + input_of(b),
        input_of(seq![m]) == items_of(m),
        input_of(Seq::empty()) == Seq::<JsonView>::empty(),
    decreases b.len(),
{
    let none = Seq::<MessageView>::empty();
    assert(input_of(none) =~= Seq::<JsonView>::empty());
    assert(seq![m].drop_last() =~= none);
    assert(seq![m].last() == m);
    assert(input_of(seq![m]) =~= items_of(m));
    if b.len() == 0 {
        assert(a + b =~= a);
        assert(input_of(a) + input_of(b) =~= input_of(a));
    } else {
        assert((a + b).drop_last() =~= a + b.drop_last());
        law_input_keeps_the_order(a, b.drop_last(), m);
        assert(input_of(a + b) =~= input_of(a) + input_of(b));
    }
}

/// What the system says in two parts of a conversation comes in their order, with
/// an empty line between; where one part says nothing it is that of the other. The
/// others' messages say nothing for it.
pub proof fn law_instructions_keep_the_order(
    a: Seq<MessageView>,
    b: Seq<MessageView>,
    m: MessageView,
)
    ensures
        system_texts(a + b) == system_texts(a) + system_texts(b),
        system_texts(a).len() > 0 && system_texts(b).len() > 0 ==> instructions_of(a + b)
            == instructions_of(a) + "\n\n"@ + instructions_of(b),
        system_texts(a).len() == 0 ==> instructions_of(a + b) == instructions_of(b),
        system_texts(b).len() == 0 ==> instructions_of(a + b) == instructions_of(a),
        m.role == Role::System ==> system_texts(seq![m]) == seq![m.content] && instructions_of(
            seq![m],
        ) == m.content,
        m.role != Role::System ==> system_texts(seq![m]).len() == 0 && instructions_of(
            seq![m],
        ).len() == 0,
{
    lemma_system_texts_concat(a, b);
    lemma_spaced_concat(system_texts(a), system_texts(b));
    assert(system_texts(a) + Seq::<Seq<char>>::empty() =~= system_texts(a));
    assert(Seq::<Seq<char>>::empty() + system_texts(b) =~= system_texts(b));
    if system_texts(a).len() == 0 {
        assert(system_texts(a) =~= Seq::<Seq<char>>::empty());
    }
    if system_texts(b).len() == 0 {
        assert(system_texts(b) =~= Seq::<Seq<char>>::empty());
    }
    let one = seq![m];
    assert(one.drop_last() =~= Seq::<MessageView>::empty());
    assert(system_texts(one.drop_last()) =~= Seq::<Seq<char>>::empty());
    if m.role == Role::System {
        assert(system_texts(one) =~= seq![m.content]);
    }
}

proof fn lemma_system_texts_concat(a: Seq<MessageView>, b: Seq<MessageView>)
    ensures
        system_texts(a + b) == system_texts(a) + system_texts(b),
    decreases b.len(),
{
    if b.len() == 0 {
        assert(a + b =~= a);
        assert(system_texts(a) + system_texts(b) =~= system_texts(a));
    } else {
        assert((a + b).drop_last() =~= a + b.drop_last());
        lemma_system_texts_concat(a, b.drop_last());
        assert(system_texts(a + b) =~= system_texts(a) + system_texts(b));
    }
}

proof fn lemma_spaced_concat(a: Seq<Seq<char>>, b: Seq<Seq<char>>)
    ensures
        a.len() > 0 && b.len() > 0 ==> spaced(a + b) == spaced(a) + "\n\n"@ + spaced(b),
    decreases b.len(),
{
    if a.len() > 0 && b.len() == 1 {
        assert((a + b).drop_last() =~= a);
        assert(spaced(a + b) =~= spaced(a) + "\n\n"@ + spaced(b));
    } else if a.len() > 0 && b.len() > 1 {
        assert((a + b).drop_last() =~= a + b.drop_last());
        lemma_spaced_concat(a, b.drop_last());
        assert(spaced(a + b) =~= spaced(a) + "\n\n"@ + spaced(b));
    }
}

/// Each character of a tool's name that is an ASCII letter, a digit, an underscore
/// or a hyphen is kept; any other becomes an underscore.
pub proof fn law_tool_names_keep_what_fits(name: Seq<char>, i: int)
    requires
        0 <= i < name.len(),
    ensures
        ({
            let n = name[i] as int;
            let fits = 48 <= n <= 57 || 65 <= n <= 90 || 97 <= n <= 122 || n == 95 || n == 45;
            tool_name(name)[i] == if fits {
                name[i]
            } else {
                '_'
            }
        }),
{
}

/// What a value has under the keys of a text part and of an image.
pub proof fn law_parts_carry_their_text(kind: Seq<char>, text: Seq<char>, url: Seq<char>)
    ensures
        text_part(kind, text).str_at("type"@) == Some(kind),
        text_part(kind, text).str_at("text"@) == Some(text),
        image_part(url).str_at("type"@) == Some("input_image"@),
        image_part(url).str_at("image_url"@) == Some(url),
{
    lemma_body_keys();
}

proof fn lemma_body_keys()
    ensures
        "type"@ != "text"@,
        "type"@ != "image_url"@,
        "type"@ != "role"@,
        "type"@ != "content"@,
        "type"@ != "name"@,
        "type"@ != "description"@,
        "type"@ != "parameters"@,
        "type"@ != "output"@,
        "type"@ != "call_id"@,
        "type"@ != "arguments"@,
        "text"@ != "image_url"@,
        "text"@ != "role"@,
        "text"@ != "content"@,
        "text"@ != "name"@,
        "text"@ != "description"@,
        "text"@ != "parameters"@,
        "text"@ != "output"@,
        "text"@ != "call_id"@,
        "text"@ != "arguments"@,
        "image_url"@ != "role"@,
        "image_url"@ != "content"@,
        "image_url"@ != "name"@,
        "image_url"@ != "description"@,
        "image_url"@ != "parameters"@,
        "image_url"@ != "output"@,
        "image_url"@ != "call_id"@,
        "image_url"@ != "arguments"@,
        "role"@ != "content"@,
        "role"@ != "name"@,
        "role"@ != "description"@,
        "role"@ != "parameters"@,
        "role"@ != "output"@,
        "role"@ != "call_id"@,
        "role"@ != "arguments"@,
        "content"@ != "name"@,
        "content"@ != "description"@,
        "content"@ != "parameters"@,
        "content"@ != "output"@,
        "content"@ != "call_id"@,
        "content"@ != "arguments"@,
        "name"@ != "description"@,
        "name"@ != "parameters"@,
        "name"@ != "output"@,
        "name"@ != "call_id"@,
        "name"@ != "arguments"@,
        "description"@ != "parameters"@,
        "description"@ != "output"@,
        "description"@ != "call_id"@,
        "description"@ != "arguments"@,
        "parameters"@ != "output"@,
        "parameters"@ != "call_id"@,
        "parameters"@ != "arguments"@,
        "output"@ != "call_id"@,
        "output"@ != "arguments"@,
        "call_id"@ != "arguments"@,
{
    reveal_strlit("type");
    reveal_strlit("text");
    reveal_strlit("image_url");
    reveal_strlit("role");
    reveal_strlit("content");
    reveal_strlit("name");
    reveal_strlit("description");
    reveal_strlit("parameters");
    reveal_strlit("output");
    reveal_strlit("call_id");
    reveal_strlit("arguments");
    assert("arguments"@.len() == 9);
    assert("arguments"@[0] == 'a');
    assert("call_id"@.len() == 7);
    assert("call_id"@[1] == 'a');
    assert("content"@.len() == 7);
    assert("content"@[1] == 'o');
    assert("description"@.len() == 11);
    assert("image_url"@.len() == 9);
    assert("image_url"@[0] == 'i');
    assert("name"@.len() == 4);
    assert("name"@[0] == 'n');
    assert("output"@.len() == 6);
    assert("parameters"@.len() == 10);
    assert("role"@.len() == 4);
    assert("role"@[0] == 'r');
    assert("text"@.len() == 4);
    assert("text"@[0] == 't');
    assert("text"@[1] == 'e');
    assert("type"@.len() == 4);
    assert("type"@[0] == 't');
    assert("type"@[1] == 'y');
}

/// What a user says is one message of the role `user`: the text as a part of its
/// own unless it is empty beside others, and then the other parts, texts as texts
/// and images by their addresses, in their order.
pub proof fn law_users_are_heard(m: MessageView)
    requires
        m.role == Role::User,
    ensures
        items_of(m).len() == 1,
        items_of(m)[0].str_at("type"@) == Some("message"@),
        items_of(m)[0].str_at("role"@) == Some("user"@),
        items_of(m)[0].get("content"@) matches Some(JsonView::Array(parts)) && {
            let own: int = if m.content.len() > 0 || m.content_parts.len() == 0 {
                1
            } else {
                0
            };
            &&& parts.len() == own + m.content_parts.len()
            &&& own == 1 ==> parts[0].str_at("type"@) == Some("input_text"@) && parts[0].str_at(
                "text"@,
            ) == Some(m.content)
            &&& forall|i: int|
                0 <= i < m.content_parts.len() ==> match #[trigger] m.content_parts[i] {
                    PartView::Text(t) => parts[own + i].str_at("type"@) == Some("input_text"@)
                        && parts[own + i].str_at("text"@) == Some(t),
                    PartView::Image(url) => parts[own + i].str_at("type"@) == Some("input_image"@)
                        && parts[own + i].str_at("image_url"@) == Some(url),
                }
        },
{
    lemma_body_keys();
    let item = items_of(m)[0];
    let parts = user_content(m);
    assert(item.get("content"@) == Some(JsonView::Array(parts)));
    let own: int = if m.content.len() > 0 || m.content_parts.len() == 0 {
        1
    } else {
        0
    };
    assert forall|i: int| 0 <= i < m.content_parts.len() implies match #[trigger] m.content_parts[i] {
        PartView::Text(t) => parts[own + i].str_at("type"@) == Some("input_text"@) && parts[own
            + i].str_at("text"@) == Some(t),
        PartView::Image(url) => parts[own + i].str_at("type"@) == Some("input_image"@) && parts[own
            + i].str_at("image_url"@) == Some(url),
    } by {
        assert(parts[own + i] == input_part(m.content_parts[i]));
    }
}

/// What a model said is one message of the role `assistant`, unless it is empty and
/// there are calls; its calls follow, each with its identifier, its name and its
/// arguments, in their order. A call's arguments that are a text are sent as that
/// text, others as they are written.
pub proof fn law_models_are_quoted(m: MessageView)
    requires
        m.role == Role::Assistant,
    ensures
        ({
            let calls = match m.tool_calls {
                Some(c) => c,
                None => seq![],
            };
            let own: int = if m.content.len() > 0 || m.tool_calls is None {
                1
            } else {
                0
            };
            let items = items_of(m);
            &&& items.len() == own + calls.len()
            &&& own == 1 ==> {
                &&& items[0].str_at("type"@) == Some("message"@)
                &&& items[0].str_at("role"@) == Some("assistant"@)
                &&& items[0].get("content"@) matches Some(JsonView::Array(parts)) && parts.len()
                    == 1 && parts[0].str_at("type"@) == Some("output_text"@) && parts[0].str_at(
                    "text"@,
                ) == Some(m.content)
            }
            &&& forall|i: int|
                0 <= i < calls.len() ==> {
                    let item = items[own + i];
                    &&& item.str_at("type"@) == Some("function_call"@)
                    &&& item.str_at("call_id"@) == Some((#[trigger] calls[i]).id)
                    &&& item.str_at("name"@) == Some(tool_name(calls[i].name))
                    &&& item.str_at("arguments"@) == Some(
                        match calls[i].arguments {
                            JsonView::Text(s) => s,
                            v => written(v),
                        },
                    )
                }
        }),
{
    lemma_body_keys();
    lemma_item_keys();
    let calls = match m.tool_calls {
        Some(c) => c,
        None => seq![],
    };
    let own: int = if m.content.len() > 0 || m.tool_calls is None {
        1
    } else {
        0
    };
    let items = items_of(m);
    let sent = calls.map_values(|c: CallView| call_item(c));
    assert forall|i: int| 0 <= i < calls.len() implies items[own + i] == call_item(
        #[trigger] calls[i],
    ) by {
        assert(sent[i] == call_item(calls[i]));
        assert(items[own + i] == sent[i]);
    }
}

/// What a tool gave is one item that carries the call's identifier and the text;
/// the system's messages become no item.
pub proof fn law_tools_are_answered(m: MessageView)
    ensures
        m.role == Role::Tool ==> {
            &&& items_of(m).len() == 1
            &&& items_of(m)[0].str_at("type"@) == Some("function_call_output"@)
            &&& items_of(m)[0].str_at("call_id"@) == Some(
                match m.tool_call_id {
                    Some(id) => id,
                    None => Seq::<char>::empty(),
                },
            )
            &&& items_of(m)[0].str_at("output"@) == Some(m.content)
        },
        m.role == Role::System ==> items_of(m).len() == 0,
{
    lemma_body_keys();
}

/// A tool is sent as a function with its name as the service takes it, its own
/// description and its own parameters, and tools are sent in their order.
pub proof fn law_tools_are_described(tools: Seq<ToolView>, i: int)
    requires
        0 <= i < tools.len(),
    ensures
        tool_items(tools).len() == tools.len(),
        tool_items(tools)[i].str_at("type"@) == Some("function"@),
        tool_items(tools)[i].str_at("name"@) == Some(tool_name(tools[i].name)),
        tool_items(tools)[i].str_at("description"@) == Some(tools[i].description),
        tool_items(tools)[i].get("parameters"@) == Some(tools[i].parameters),
{
    lemma_body_keys();
}

/// A request names the model, carries what is said, asks for a stream and not to
/// be stored. It has instructions exactly where there are some, a temperature and a
/// bound on the tokens exactly where they are given, and tools with a choice, which
/// is `auto` unless another is given, exactly where there are tools.
pub proof fn law_requests_say_what_is_asked(
    model: Seq<char>,
    messages: Seq<MessageView>,
    tools: Seq<ToolView>,
    tool_choice: Option<Seq<char>>,
    temperature: Option<JsonView>,
    max_tokens: Option<u32>,
)
    ensures
        ({
            let b = body_of(model, messages, tools, tool_choice, temperature, max_tokens);
            &&& b.str_at("model"@) == Some(model)
            &&& b.get("input"@) == Some(JsonView::Array(input_of(messages)))
            &&& b.get("store"@) == Some(JsonView::Bool(false))
            &&& b.get("stream"@) == Some(JsonView::Bool(true))
            &&& b.str_at("instructions"@) == if instructions_of(messages).len() > 0 {
                Some(instructions_of(messages))
            } else {
                None
            }
            &&& b.get("temperature"@) == temperature
            &&& match max_tokens {
                Some(n) => b.get("max_output_tokens"@) matches Some(v) && v.as_u64() == Some(
                    n as u64,
                ),
                None => b.get("max_output_tokens"@) is None,
            }
            &&& if tools.len() > 0 {
                &&& b.get("tools"@) == Some(JsonView::Array(tool_items(tools)))
                &&& b.str_at("tool_choice"@) == Some(
                    match tool_choice {
                        Some(c) => c,
                        None => "auto"@,
                    },
                )
                &&& b.get("parallel_tool_calls"@) == Some(JsonView::Bool(true))
            } else {
                &&& b.get("tools"@) is None
                &&& b.get("tool_choice"@) is None
                &&& b.get("parallel_tool_calls"@) is None
            }
        }),
{
    lemma_request_keys();
}

proof fn lemma_request_keys()
    ensures
        "model"@ != "input"@,
        "model"@ != "store"@,
        "model"@ != "stream"@,
        "model"@ != "instructions"@,
        "model"@ != "temperature"@,
        "model"@ != "max_output_tokens"@,
        "model"@ != "tools"@,
        "model"@ != "tool_choice"@,
        "model"@ != "parallel_tool_calls"@,
        "input"@ != "store"@,
        "input"@ != "stream"@,
        "input"@ != "instructions"@,
        "input"@ != "temperature"@,
        "input"@ != "max_output_tokens"@,
        "input"@ != "tools"@,
        "input"@ != "tool_choice"@,
        "input"@ != "parallel_tool_calls"@,
        "store"@ != "stream"@,
        "store"@ != "instructions"@,
        "store"@ != "temperature"@,
        "store"@ != "max_output_tokens"@,
        "store"@ != "tools"@,
        "store"@ != "tool_choice"@,
        "store"@ != "parallel_tool_calls"@,
        "stream"@ != "instructions"@,
        "stream"@ != "temperature"@,
        "stream"@ != "max_output_tokens"@,
        "stream"@ != "tools"@,
        "stream"@ != "tool_choice"@,
        "stream"@ != "parallel_tool_calls"@,
        "instructions"@ != "temperature"@,
        "instructions"@ != "max_output_tokens"@,
        "instructions"@ != "tools"@,
        "instructions"@ != "tool_choice"@,
        "instructions"@ != "parallel_tool_calls"@,
        "temperature"@ != "max_output_tokens"@,
        "temperature"@ != "tools"@,
        "temperature"@ != "tool_choice"@,
        "temperature"@ != "parallel_tool_calls"@,
        "max_output_tokens"@ != "tools"@,
        "max_output_tokens"@ != "tool_choice"@,
        "max_output_tokens"@ != "parallel_tool_calls"@,
        "tools"@ != "tool_choice"@,
        "tools"@ != "parallel_tool_calls"@,
        "tool_choice"@ != "parallel_tool_calls"@,
{
    reveal_strlit("model");
    reveal_strlit("input");
    reveal_strlit("store");
    reveal_strlit("stream");
    reveal_strlit("instructions");
    reveal_strlit("temperature");
    reveal_strlit("max_output_tokens");
    reveal_strlit("tools");
    reveal_strlit("tool_choice");
    reveal_strlit("parallel_tool_calls");
    assert("input"@.len() == 5);
    assert("input"@[0] == 'i');
    assert("instructions"@.len() == 12);
    assert("max_output_tokens"@.len() == 17);
    assert("model"@.len() == 5);
    assert("model"@[0] == 'm');
    assert("parallel_tool_calls"@.len() == 19);
    assert("store"@.len() == 5);
    assert("store"@[0] == 's');
    assert("stream"@.len() == 6);
    assert("temperature"@.len() == 11);
    assert("temperature"@[1] == 'e');
    assert("tool_choice"@.len() == 11);
    assert("tool_choice"@[1] == 'o');
    assert("tools"@.len() == 5);
    assert("tools"@[0] == 't');
}

/// A value that is given is seen as it is.
pub proof fn law_given_values_are_seen(v: Json)
    ensures
        opt_json(Some(v)) == Some(v@),
        opt_json(None) is None,
{
}

} // verus!

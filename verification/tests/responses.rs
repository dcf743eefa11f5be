use ironclaw::json::{Json, JsonNumber};
use ironclaw::json_keys::key_stands_once;
use ironclaw::openai_responses::headers::{gather_headers, gather_within};
use ironclaw::openai_responses::input::{
    build_request_body, convert_message, convert_tool_definition, sanitize_tool_name,
};
use ironclaw::openai_responses::provider::{
    completion, extract_model_ids, token_count_text, tool_completion, HttpReply, ModelsReply,
    OpenAiResponsesProvider, RegistryProviderConfig,
};
use ironclaw::openai_responses::stream::{
    parse_arguments, parse_sse_response, saturate_u32, Answer,
};
use ironclaw::openai_responses::types::{
    ChatMessage, ContentPart, FinishReason, ImageUrl, LlmError, ParsedResponse, RetryDelay, Role,
    ToolCall, ToolDefinition,
};
use rust_decimal::Decimal;

const PROVIDER: &str = "openai_compatible";

fn json(s: &str) -> Json {
    Json::parse(s).unwrap()
}

fn call(id: &str, name: &str, arguments: Json) -> ToolCall {
    ToolCall {
        id: id.to_string(),
        name: name.to_string(),
        arguments,
        reasoning: None,
        signature: None,
    }
}

fn provider(api_key: Option<&str>, extra: Vec<(&str, &str)>) -> OpenAiResponsesProvider {
    let config = RegistryProviderConfig {
        provider_id: PROVIDER.to_string(),
        model: "m-1".to_string(),
        api_key: api_key.map(|k| k.to_string()),
        extra_headers: extra
            .into_iter()
            .map(|(k, v)| (k.to_string(), v.to_string()))
            .collect(),
        unsupported_params: vec!["a".to_string(), "b".to_string(), "a".to_string()],
    };
    OpenAiResponsesProvider::new(
        &config,
        "https://api.example/v1//".to_string(),
        Decimal::new(15, 7),
        Decimal::new(6, 6),
    )
    .unwrap()
}

#[test]
fn convert_messages_shapes_responses_input_items() {
    let messages = vec![
        ChatMessage::user("hello"),
        ChatMessage::assistant_with_tool_calls(
            Some("checking".to_string()),
            vec![ToolCall {
                id: "call_1".to_string(),
                name: "read.file".to_string(),
                arguments: json(r#"{"path": "/tmp/a"}"#),
                reasoning: None,
                signature: None,
            }],
        ),
        ChatMessage::tool_result("call_1", "read.file", "contents"),
    ];

    let items = messages
        .iter()
        .flat_map(convert_message)
        .collect::<Vec<_>>();
    assert_eq!(items[0].str_at("type"), Some("message"));
    match items[0].get("content") {
        Some(Json::Array(parts)) => assert_eq!(parts[0].str_at("type"), Some("input_text")),
        other => panic!("{other:?}"),
    }
    assert_eq!(items[1].str_at("type"), Some("message"));
    assert_eq!(items[2].str_at("type"), Some("function_call"));
    assert_eq!(items[2].str_at("name"), Some("read_file"));
    assert_eq!(items[3].str_at("type"), Some("function_call_output"));
    assert_eq!(items[2].str_at("call_id"), Some("call_1"));
    assert_eq!(items[3].str_at("call_id"), Some("call_1"));
    assert_eq!(items[2].str_at("arguments"), Some(r#"{"path":"/tmp/a"}"#));
    assert_eq!(items[3].str_at("output"), Some("contents"));
}

#[test]
fn convert_tool_definition_uses_responses_function_shape() {
    let tool = ToolDefinition {
        name: "my.tool".to_string(),
        description: "Does work".to_string(),
        parameters: json(r#"{"type": "object", "properties": {"x": {"type": "string"}}}"#),
    };
    let converted = convert_tool_definition(&tool);
    assert_eq!(converted.str_at("type"), Some("function"));
    assert_eq!(converted.str_at("name"), Some("my_tool"));
    assert_eq!(
        converted.get("parameters").and_then(|p| p.str_at("type")),
        Some("object")
    );
}

#[test]
fn parse_sse_text_response() {
    let body = r#"data: {"type":"response.output_text.delta","delta":"Hello "}

data: {"type":"response.output_text.delta","delta":"world"}

data: {"type":"response.completed","response":{"status":"completed","usage":{"input_tokens":7,"output_tokens":3}}}

"#;
    let parsed = parse_sse_response(PROVIDER, body).expect("parse");
    assert_eq!(parsed.text_content, "Hello world");
    assert_eq!(parsed.input_tokens, 7);
    assert_eq!(parsed.output_tokens, 3);
    assert_eq!(parsed.finish_reason, FinishReason::Stop);
}

#[test]
fn parse_sse_tool_call_response() {
    let body = r#"data: {"type":"response.output_item.added","item":{"type":"function_call","id":"fc_1","call_id":"call_1","name":"search"}}

data: {"type":"response.function_call_arguments.delta","item_id":"fc_1","delta":"{\"query\":"}

data: {"type":"response.function_call_arguments.delta","item_id":"fc_1","delta":"\"rust\"}"}

data: {"type":"response.output_item.done","item":{"type":"function_call","id":"fc_1","call_id":"call_1","name":"search","arguments":"{\"query\":\"rust\"}"}}

data: {"type":"response.completed","response":{"status":"completed","usage":{"input_tokens":9,"output_tokens":5}}}

"#;
    let parsed = parse_sse_response(PROVIDER, body).expect("parse");
    assert_eq!(parsed.finish_reason, FinishReason::ToolUse);
    assert_eq!(parsed.tool_calls.len(), 1);
    assert_eq!(parsed.tool_calls[0].id, "call_1");
    assert_eq!(parsed.tool_calls[0].name, "search");
    assert_eq!(parsed.tool_calls[0].arguments, json(r#"{"query": "rust"}"#));
}

#[test]
fn done_ends_the_stream_and_noise_is_passed_over() {
    let body = "event: x\n: comment\n  data:{\"type\":\"response.output_text.delta\",\"delta\":\"a\"}  \r\n\
                data: not json\ndata: [1]\ndata: {\"delta\":\"no kind\"}\ndata: {\"type\":\"other\"}\n\
                data: [DONE]\ndata: {\"type\":\"error\"}\n";
    let parsed = parse_sse_response(PROVIDER, body).unwrap();
    assert_eq!(parsed.text_content, "a");
    assert!(parsed.tool_calls.is_empty());
    let empty = parse_sse_response(PROVIDER, "").unwrap();
    assert_eq!(empty.finish_reason, FinishReason::Stop);
    assert_eq!(empty.text_content, "");
}

#[test]
fn failures_of_the_stream_are_errors() {
    let fail = |body: &str| match parse_sse_response(PROVIDER, body) {
        Err(LlmError::RequestFailed { provider, reason }) => {
            assert_eq!(provider, PROVIDER);
            reason
        }
        other => panic!("{other:?}"),
    };
    assert_eq!(
        fail(r#"data: {"type":"response.failed","response":{"status_details":{"error":{"message":"boom"}}}}"#),
        "Response failed: boom"
    );
    assert_eq!(
        fail(r#"data: {"type":"response.failed"}"#),
        "Response failed: Unknown error"
    );
    assert_eq!(
        fail(r#"data: {"type":"error","code":"c","message":"m"}"#),
        "Error c: m"
    );
    assert_eq!(fail(r#"data: {"type":"error"}"#), "Error unknown: Unknown error");
}

#[test]
fn calls_are_gathered_in_every_form() {
    let body = r#"data: {"type":"response.output_item.added","item":{"type":"function_call","call_id":"c1","name":"one"}}
data: {"type":"response.output_item.added","item":{"type":"function_call","id":"i2","name":"two"}}
data: {"type":"response.output_item.added","item":{"type":"message","id":"i3","name":"three"}}
data: {"type":"response.function_call_arguments.done","item_id":"i2","arguments":"not json"}
data: {"type":"response.output_item.done","item":{"type":"function_call","id":"i4","name":"four"}}
data: {"type":"response.output_item.done","item":{"type":"function_call","id":"i5","call_id":"c5","arguments":"[1]"}}
data: {"type":"response.output_item.done","item":{"type":"function_call","id":"i6","call_id":"c6","name":"six","arguments":"[1]"}}
"#;
    let parsed = parse_sse_response(PROVIDER, body).unwrap();
    let seen: Vec<(&str, &str, String)> = parsed
        .tool_calls
        .iter()
        .map(|c| (c.id.as_str(), c.name.as_str(), c.arguments.write()))
        .collect();
    assert_eq!(
        seen,
        vec![
            ("i4", "four", "{}".to_string()),
            ("c6", "six", "[1]".to_string()),
            ("c1", "one", "\"\"".to_string()),
            ("i2", "two", "\"not json\"".to_string()),
        ]
    );
}

#[test]
fn a_call_that_is_announced_again_starts_anew() {
    let mut answer = Answer::new();
    let added = json(r#"{"item":{"type":"function_call","id":"i","call_id":"c","name":"n"}}"#);
    answer.apply_event("response.output_item.added", &added).unwrap();
    let delta = json(r#"{"item_id":"i","delta":"{"}"#);
    answer
        .apply_event("response.function_call_arguments.delta", &delta)
        .unwrap();
    assert_eq!(answer.active[0].arguments, "{");
    let again = json(r#"{"item":{"type":"function_call","id":"i","call_id":"d","name":"n"}}"#);
    answer.apply_event("response.output_item.added", &again).unwrap();
    assert_eq!(answer.active.len(), 1);
    assert_eq!(answer.active[0].call_id, "d");
    assert_eq!(answer.active[0].arguments, "");
    let stray = json(r#"{"item_id":"x","delta":"{"}"#);
    answer
        .apply_event("response.function_call_arguments.delta", &stray)
        .unwrap();
    assert_eq!(answer.active[0].arguments, "");
}

#[test]
fn incomplete_answers_ran_out_of_room() {
    let body = r#"data: {"type":"response.completed","response":{"status":"incomplete","usage":{"input_tokens":5000000000,"output_tokens":"x"}}}"#;
    let parsed = parse_sse_response(PROVIDER, body).unwrap();
    assert_eq!(parsed.finish_reason, FinishReason::Length);
    assert_eq!(parsed.input_tokens, u32::MAX);
    assert_eq!(parsed.output_tokens, 0);
    assert_eq!(saturate_u32(7), 7);
    assert_eq!(saturate_u32(u64::MAX), u32::MAX);
}

#[test]
fn arguments_are_json_or_text() {
    assert_eq!(parse_arguments("{\"a\":1}"), json("{\"a\":1}"));
    assert_eq!(parse_arguments("{\"a\":"), Json::Text("{\"a\":".to_string()));
    assert_eq!(parse_arguments(""), Json::Text("".to_string()));
}

#[test]
fn call_ids_round_trip_across_a_tool_loop() {
    let body = r#"data: {"type":"response.output_item.added","item":{"type":"function_call","id":"fc_9","call_id":"call_9","name":"read_file"}}
data: {"type":"response.function_call_arguments.done","item_id":"fc_9","arguments":"{\"path\":\"/tmp/a\"}"}
data: {"type":"response.output_item.done","item":{"type":"function_call","id":"fc_9"}}
"#;
    let tools = vec![ToolDefinition {
        name: "read.file".to_string(),
        description: "".to_string(),
        parameters: Json::Null,
    }];
    let response = tool_completion(&tools, parse_sse_response(PROVIDER, body).unwrap());
    assert_eq!(response.tool_calls[0].name, "read.file");
    assert_eq!(response.content, None);
    assert_eq!(response.finish_reason, FinishReason::ToolUse);
    let id = response.tool_calls[0].id.clone();
    let sent = convert_message(&ChatMessage::assistant_with_tool_calls(
        None,
        response.tool_calls,
    ));
    assert_eq!(sent.len(), 1);
    assert_eq!(sent[0].str_at("call_id"), Some("call_9"));
    assert_eq!(sent[0].str_at("name"), Some("read_file"));
    assert_eq!(sent[0].str_at("arguments"), Some(r#"{"path":"/tmp/a"}"#));
    let result = convert_message(&ChatMessage::tool_result(&id, "read.file", "x"));
    assert_eq!(result[0].str_at("call_id"), Some("call_9"));
}

#[test]
fn tool_names_fit_the_service() {
    assert_eq!(sanitize_tool_name("a.b/c d-é_1"), "a_b_c_d-__1");
    assert_eq!(sanitize_tool_name(&sanitize_tool_name("x.y")), "x_y");
    assert_eq!(sanitize_tool_name(""), "");
}

#[test]
fn messages_are_shaped_by_their_role() {
    let show = |m: &ChatMessage| -> Vec<String> {
        convert_message(m).iter().map(|j| j.write()).collect()
    };
    assert!(show(&ChatMessage::plain(Role::System, "s".to_string())).is_empty());
    let mut user = ChatMessage::user("look");
    user.content_parts = vec![
        ContentPart::ImageUrl {
            image_url: ImageUrl {
                url: "data:x".to_string(),
            },
        },
        ContentPart::Text {
            text: "t".to_string(),
        },
    ];
    assert_eq!(
        show(&user),
        vec![r#"{"content":[{"text":"look","type":"input_text"},{"image_url":"data:x","type":"input_image"},{"text":"t","type":"input_text"}],"role":"user","type":"message"}"#]
    );
    user.content = "".to_string();
    assert_eq!(
        show(&user),
        vec![r#"{"content":[{"image_url":"data:x","type":"input_image"},{"text":"t","type":"input_text"}],"role":"user","type":"message"}"#]
    );
    assert_eq!(
        show(&ChatMessage::user("")),
        vec![r#"{"content":[{"text":"","type":"input_text"}],"role":"user","type":"message"}"#]
    );
    assert_eq!(
        show(&ChatMessage::plain(Role::Assistant, "a".to_string())),
        vec![r#"{"content":[{"text":"a","type":"output_text"}],"role":"assistant","type":"message"}"#]
    );
    assert_eq!(
        show(&ChatMessage::plain(Role::Tool, "o".to_string())),
        vec![r#"{"call_id":"","output":"o","type":"function_call_output"}"#]
    );
    let raw = ChatMessage::assistant_with_tool_calls(
        None,
        vec![call("c", "n", Json::Text("raw {".to_string()))],
    );
    assert_eq!(
        show(&raw),
        vec![r#"{"arguments":"raw {","call_id":"c","name":"n","type":"function_call"}"#]
    );
}

#[test]
fn request_bodies_hold_what_is_given() {
    let messages = vec![
        ChatMessage::plain(Role::System, "one".to_string()),
        ChatMessage::user("hi"),
        ChatMessage::plain(Role::System, "two".to_string()),
    ];
    let body = build_request_body("m", &messages, &vec![], Some("none"), None, None);
    assert_eq!(
        body.write(),
        r#"{"input":[{"content":[{"text":"hi","type":"input_text"}],"role":"user","type":"message"}],"instructions":"one\n\ntwo","model":"m","store":false,"stream":true}"#
    );
    let tools = vec![ToolDefinition {
        name: "t".to_string(),
        description: "d".to_string(),
        parameters: json("{}"),
    }];
    let temperature = Json::Number(JsonNumber::Decimal("0.7".to_string()));
    let body = build_request_body("m", &vec![], &tools, None, Some(temperature), Some(9));
    assert_eq!(
        body.write(),
        r#"{"input":[],"max_output_tokens":9,"model":"m","parallel_tool_calls":true,"store":false,"stream":true,"temperature":0.7,"tool_choice":"auto","tools":[{"description":"d","name":"t","parameters":{},"type":"function"}]}"#
    );
    let p = provider(None, vec![]);
    assert_eq!(
        p.completion_body(None, &vec![], None, None).str_at("model"),
        Some("m-1")
    );
    assert_eq!(
        p.tool_completion_body(Some("m-2"), &vec![], &tools, Some("required"), None, None)
            .str_at("tool_choice"),
        Some("required")
    );
}

#[test]
fn empty_system_messages_still_count() {
    let messages = vec![
        ChatMessage::plain(Role::System, "".to_string()),
        ChatMessage::plain(Role::System, "".to_string()),
    ];
    let body = build_request_body("m", &messages, &vec![], None, None, None);
    assert_eq!(body.str_at("instructions"), Some("\n\n"));
}

#[test]
fn headers_are_taken_in_if_they_are_good() {
    let pairs: Vec<(String, String)> = [
        ("X-One", "1"),
        ("x-one", "2"),
        ("bad name", "3"),
        ("", "4"),
        ("x-bad", "a\nb"),
        ("x-tab", "a\tb"),
        ("x-wide", "é"),
        ("x-del", "\u{7f}"),
        ("!#$%&'*+-.^_`|~", "5"),
        ("x\"y", "6"),
    ]
    .iter()
    .map(|(k, v)| (k.to_string(), v.to_string()))
    .collect();
    let headers = gather_headers(&pairs);
    assert_eq!(headers.len(), 4);
    assert_eq!(headers.get("X-ONE").unwrap().as_bytes(), b"2");
    assert_eq!(headers.get("x-tab").unwrap().as_bytes(), b"a\tb");
    assert_eq!(headers.get("x-wide").unwrap().as_bytes(), "é".as_bytes());
    assert_eq!(headers.get("!#$%&'*+-.^_`|~").unwrap().as_bytes(), b"5");
}

#[test]
fn header_names_follow_the_table() {
    for n in 0u32..256 {
        let c = char::from_u32(n).unwrap();
        let headers = gather_headers(&vec![(format!("x{c}"), "v".to_string())]);
        let good = c.is_ascii_alphanumeric() || "!#$%&'*+-.^_`|~".contains(c);
        assert_eq!(headers.len() == 1, good, "{n}");
        let headers = gather_headers(&vec![("x".to_string(), c.to_string())]);
        let good = (n >= 32 && n != 127) || n == 9;
        assert_eq!(headers.len() == 1, good, "{n}");
    }
    assert_eq!(gather_headers(&vec![("a".repeat(65535), "v".to_string())]).len(), 1);
    assert_eq!(gather_headers(&vec![("a".repeat(65536), "v".to_string())]).len(), 0);
}

#[test]
fn many_headers_are_taken_in() {
    let pairs: Vec<(String, String)> = (0..6553)
        .map(|i| (format!("x-{i}"), i.to_string()))
        .collect();
    assert_eq!(gather_headers(&pairs).len(), 6553);
    assert_eq!(gather_within(&pairs).unwrap().len(), 6553);
}

#[test]
fn headers_are_taken_in_as_long_as_there_is_room() {
    let config = |n: usize| RegistryProviderConfig {
        provider_id: PROVIDER.to_string(),
        model: "m-1".to_string(),
        api_key: Some("key".to_string()),
        extra_headers: (0..n).map(|i| (format!("x-{i}"), i.to_string())).collect(),
        unsupported_params: Vec::new(),
    };
    let set_up = |n: usize| {
        let cost = Decimal::new(1, 6);
        OpenAiResponsesProvider::new_within(&config(n), "https://h".to_string(), cost, cost)
    };
    let p = set_up(9000).unwrap();
    assert_eq!(p.extra_headers.len(), 9000);
    let headers = p.build_headers_within("application/json").unwrap().unwrap();
    assert_eq!(headers.len(), 9003);
    assert_eq!(headers.get("x-8999").unwrap(), "8999");
    assert_eq!(headers.get("authorization").unwrap(), "Bearer key");
    assert!(set_up(30_000).is_none());
    assert!(gather_within(&config(30_000).extra_headers).is_none());
    assert!(matches!(
        provider(Some("a\nb"), vec![]).build_headers_within("application/json"),
        Some(Err(LlmError::RequestFailed { .. }))
    ));
}

#[test]
fn only_accepted_names_count() {
    let pairs: Vec<(String, String)> = (0..20_000)
        .map(|i| match i % 3 {
            0 => ("x-same".to_string(), i.to_string()),
            1 => (format!("bad name {i}"), "v".to_string()),
            _ => (format!("X-{}", i % 7), "a\nb".to_string()),
        })
        .collect();
    assert_eq!(gather_within(&pairs).unwrap().len(), 1);
    let headers = gather_headers(&pairs);
    assert_eq!(headers.len(), 1);
    assert_eq!(headers.get("x-same").unwrap(), "19998");
    let extra: Vec<(&str, &str)> = pairs.iter().map(|(k, v)| (k.as_str(), v.as_str())).collect();
    assert_eq!(provider(None, extra).extra_headers.len(), 1);
}

#[test]
fn events_name_their_kind_once() {
    let text = |body: &str| parse_sse_response(PROVIDER, body).unwrap().text_content;
    let delta = "response.output_text.delta";
    let good = format!("data: {{\"delta\":\"a\",\"type\":\"{delta}\"}}");
    assert_eq!(text(&good), "a");
    for twice in [
        format!("data: {{\"type\":\"{delta}\",\"delta\":\"b\",\"type\":\"{delta}\"}}"),
        format!("data: {{\"type\":\"x\",\"delta\":\"b\",\"type\":\"{delta}\"}}"),
        format!("data: {{\"\\u0074ype\":\"{delta}\",\"delta\":\"b\",\"type\":\"{delta}\"}}"),
        format!("data: {{\"type\":1,\"delta\":\"b\",\"type\":\"{delta}\"}}"),
    ] {
        assert_eq!(text(&format!("{twice}\n{good}")), "a", "{twice}");
    }
    for once in [
        format!("data: {{\"delta\":\"a\",\"\\u0074ype\":\"{delta}\"}}"),
        format!("data: {{\"x\":\"type\",\"delta\":\"a\",\"type\":\"{delta}\"}}"),
        format!("data: {{\"x\":{{\"type\":1,\"type\":2}},\"delta\":\"a\",\"type\":\"{delta}\"}}"),
        format!("data: {{\"x\":[{{\"type\":\"}}]\"}}],\"delta\":\"a\",\"type\":\"{delta}\"}}"),
        format!("data: {{\"a:\\\"{{[,\":\"\\\\\",\"delta\":\"a\",\"type\":\"{delta}\"}}"),
        format!("data: {{ \"delta\" : \"b\" , \"delta\" : \"a\" , \"type\" : \"{delta}\" }}"),
    ] {
        assert_eq!(text(&once), "a", "{once}");
    }
    assert!(key_stands_once("{\"a\":1,\"b\":\"a\"}", "a"));
    assert!(!key_stands_once("{\"a\":1,\"a\":2}", "a"));
    assert!(!key_stands_once("{\"b\":1}", "a"));
    assert!(!key_stands_once("{\"a\"", "a"));
}

#[test]
fn requests_have_the_usual_headers() {
    let p = provider(
        Some("key"),
        vec![("Accept", "text/html"), ("X-Extra", "e"), ("Authorization", "none")],
    );
    let headers = p.build_headers("text/event-stream").unwrap();
    assert_eq!(headers.len(), 4);
    assert_eq!(headers.get("content-type").unwrap(), "application/json");
    assert_eq!(headers.get("accept").unwrap(), "text/event-stream");
    assert_eq!(headers.get("authorization").unwrap(), "Bearer key");
    assert_eq!(headers.get("x-extra").unwrap(), "e");
    assert_eq!(p.extra_headers.len(), 3);
    let headers = provider(None, vec![]).build_headers("application/json").unwrap();
    assert!(headers.get("authorization").is_none());
    assert!(matches!(
        provider(Some("a\nb"), vec![]).build_headers("application/json"),
        Err(LlmError::RequestFailed { provider, reason })
            if provider == PROVIDER
                && reason == "Invalid API key header value: failed to parse header value"
    ));
}

#[test]
fn providers_know_their_model_and_addresses() {
    let p = provider(None, vec![]);
    assert_eq!(p.api_url("/responses"), "https://api.example/v1/responses");
    assert_eq!(p.api_url("models"), "https://api.example/v1/models");
    assert_eq!(p.model_name(), "m-1");
    assert_eq!(p.cost_per_token(), (Decimal::new(15, 7), Decimal::new(6, 6)));
    assert_eq!(p.model_metadata().id, "m-1");
    assert_eq!(p.model_metadata().context_length, None);
    assert_eq!(p.effective_model_name(None), "m-1");
    assert_eq!(p.effective_model_name(Some("m-9")), "m-9");
    assert_eq!(p.unsupported_params, vec!["a".to_string(), "b".to_string()]);
}

#[test]
fn refusals_are_told_apart() {
    let p = provider(None, vec![]);
    let delay = Some(RetryDelay { secs: 3, nanos: 0 });
    let refuse = |status: u16| {
        p.receive_response(HttpReply::Refused {
            status,
            status_text: format!("{status} Reason"),
            preview: "body".to_string(),
            retry_after: delay,
            used: 11,
            limit: 10,
        })
    };
    assert!(matches!(refuse(401), Err(LlmError::AuthFailed { provider }) if provider == PROVIDER));
    assert!(matches!(
        refuse(429),
        Err(LlmError::RateLimited { retry_after, .. }) if retry_after == delay
    ));
    assert!(matches!(
        refuse(413),
        Err(LlmError::ContextLengthExceeded { used: 11, limit: 10 })
    ));
    for status in [500, 599] {
        assert!(matches!(
            refuse(status),
            Err(LlmError::BadGateway { status: s, retry_after, .. })
                if s == status && retry_after == delay
        ));
    }
    for status in [400, 600, 300] {
        assert!(matches!(
            refuse(status),
            Err(LlmError::RequestFailed { reason, .. })
                if reason == format!("HTTP {status} Reason: body")
        ));
    }
    assert!(matches!(
        p.receive_response(HttpReply::NotSent("x".to_string())),
        Err(LlmError::RequestFailed { reason, .. }) if reason == "HTTP request failed: x"
    ));
    assert!(matches!(
        p.receive_response(HttpReply::Unreadable("x".to_string())),
        Err(LlmError::RequestFailed { reason, .. }) if reason == "Failed to read response body: x"
    ));
    let ok = p
        .receive_response(HttpReply::Body(
            "data: {\"type\":\"response.output_text.delta\",\"delta\":\"a\"}".to_string(),
        ))
        .unwrap();
    let done = completion(ok);
    assert_eq!(done.content, "a");
    assert_eq!(done.cache_read_input_tokens, 0);
    assert_eq!(token_count_text("Max 10 TOKENS É"), "max 10 tokens É");
}

#[test]
fn models_are_listed() {
    let p = provider(None, vec![]);
    let ids = |s: &str| extract_model_ids(&json(s));
    assert_eq!(
        ids(r#"{"data":[{"id":"a"},{"name":"b"},{"model":"c"},{"id":1,"name":"d"},7]}"#),
        vec!["a".to_string(), "b".to_string(), "c".to_string()]
    );
    assert_eq!(ids(r#"{"models":[{"id":"x"}]}"#), vec!["x".to_string()]);
    assert!(ids(r#"{"data":{},"models":[{"id":"x"}]}"#).is_empty());
    assert!(ids("[]").is_empty());
    assert_eq!(
        p.receive_models(ModelsReply::Body(r#"{"data":[{"id":"a"}]}"#.to_string()))
            .unwrap(),
        vec!["a".to_string()]
    );
    assert!(matches!(
        p.receive_models(ModelsReply::Body("<html>".to_string())),
        Err(LlmError::Json(e)) if e.to_string() == "expected value at line 1 column 1"
    ));
    assert!(matches!(
        p.receive_models(ModelsReply::Body("{\"data\":".to_string())),
        Err(LlmError::Json(e)) if e.to_string() == "EOF while parsing a value at line 1 column 8"
    ));
    let reason = |r: ModelsReply| match p.receive_models(r) {
        Err(LlmError::RequestFailed { reason, .. }) => reason,
        other => panic!("{other:?}"),
    };
    assert_eq!(
        reason(ModelsReply::NotSent("x".to_string())),
        "Failed to fetch models: x"
    );
    assert_eq!(
        reason(ModelsReply::Unreadable("x".to_string())),
        "Failed to read models response: x"
    );
    assert_eq!(
        reason(ModelsReply::Refused {
            status_text: "404 Not Found".to_string(),
            preview: "p".to_string()
        }),
        "Models endpoint returned HTTP 404 Not Found: p"
    );
}

#[test]
fn own_names_are_those_of_the_last_renamed_tool() {
    let tool = |name: &str| ToolDefinition {
        name: name.to_string(),
        description: "".to_string(),
        parameters: Json::Null,
    };
    let parsed = || ParsedResponse {
        text_content: "t".to_string(),
        tool_calls: vec![call("1", "a_b", Json::Null), call("2", "c", Json::Null)],
        input_tokens: 1,
        output_tokens: 2,
        finish_reason: FinishReason::Stop,
    };
    let names = |tools: &Vec<ToolDefinition>| -> Vec<String> {
        tool_completion(tools, parsed())
            .tool_calls
            .iter()
            .map(|c| c.name.clone())
            .collect()
    };
    assert_eq!(names(&vec![tool("a.b"), tool("a/b"), tool("a_b"), tool("c")]), vec!["a/b", "c"]);
    assert_eq!(names(&vec![]), vec!["a_b", "c"]);
    let response = tool_completion(&vec![], parsed());
    assert_eq!(response.content, Some("t".to_string()));
    assert_eq!(response.finish_reason, FinishReason::ToolUse);
    assert_eq!(response.reasoning, None);
}

#[test]
fn json_text_is_read_and_written() {
    let v = json(r#" {"b":[1,-2,2.50,true,null,"x\n"],"a":{}, "a":1} "#);
    assert_eq!(v.get("a"), Some(&Json::from_u64(1)));
    assert_eq!(v.write(), r#"{"a":1,"b":[1,-2,2.5,true,null,"x\n"]}"#);
    assert_eq!(Json::parse("{"), None);
    assert!(Json::read("{").is_err());
    let copy = v.clone();
    assert_eq!(copy, v);
    assert_eq!(v.as_str(), None);
    assert_eq!(Json::from_i64(-3).write(), "-3");
}

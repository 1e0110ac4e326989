use rika::json::JsonValue;
use rika::providers::{ChatMessage, OpenAiCodexProvider, OpenAiProvider, OpenRouterProvider, ToolCall};
use rika::stream::{SseDecoder, StreamAccumulator, UsageCounts};
use rika::tools::ToolCallStatus;
use rika::wire::{encode_tool_calls_message, encode_tool_result, push_json_string, ApiResponseMessage, ApiToolCall, ApiToolCallFunction};

fn jv(v: &serde_json::Value) -> JsonValue {
    let text = serde_json::to_string(v).unwrap();
    match v {
        serde_json::Value::Null => JsonValue::Null,
        serde_json::Value::String(s) => JsonValue::Str(s.clone(), text),
        serde_json::Value::Bool(_) | serde_json::Value::Number(_) => JsonValue::Scalar(text),
        serde_json::Value::Array(items) => JsonValue::Array(items.iter().map(jv).collect(), text),
        serde_json::Value::Object(map) => {
            JsonValue::Object(map.iter().map(|(k, v)| (k.clone(), jv(v))).collect(), text)
        }
    }
}

fn p(text: &str) -> JsonValue {
    jv(&serde_json::from_str::<serde_json::Value>(text).unwrap())
}

#[test]
fn openai_provider_supports_native_tools() {
    let provider = OpenAiProvider::new("test-key", "https://api.openai.com/v1");
    assert!(provider.supports_native_tools());
}

#[test]
fn openrouter_provider_supports_native_tools() {
    let provider = OpenRouterProvider::new("test-key");
    assert!(provider.supports_native_tools());
    assert_eq!(provider.api_key, "test-key");
}

#[test]
fn codex_provider_has_no_native_tools() {
    let provider = OpenAiCodexProvider::new("token", "acct");
    assert!(!provider.supports_native_tools());
}

#[test]
fn chat_completions_url_uses_base_url() {
    let provider = OpenAiProvider::new("test-key", "https://example.com/v1");
    assert_eq!(provider.chat_completions_url(), "https://example.com/v1/chat/completions");
}

#[test]
fn chat_completions_url_trims_trailing_slash() {
    let provider = OpenAiProvider::new("test-key", "https://example.com/v1/");
    assert_eq!(provider.chat_completions_url(), "https://example.com/v1/chat/completions");
}

#[test]
fn openai_convert_messages_plain_user() {
    let messages = vec![ChatMessage::user("Hello")];
    let converted = OpenAiProvider::convert_messages(&messages);
    assert_eq!(converted.len(), 1);
    assert_eq!(converted[0].role, "user");
    assert_eq!(converted[0].content.as_deref(), Some("Hello"));
}

#[test]
fn openai_convert_messages_parses_assistant_tool_calls() {
    let content = r#"{"content":"Let me check that","tool_calls":[{"id":"call_123","name":"shell","arguments":"{\"command\":\"pwd\"}"}]}"#;
    let messages = vec![ChatMessage::assistant(content)];
    let converted = OpenAiProvider::convert_messages(&messages);

    assert_eq!(converted.len(), 1);
    assert_eq!(converted[0].role, "assistant");
    assert_eq!(converted[0].content.as_deref(), Some("Let me check that"));
    assert!(converted[0].tool_calls.is_some());
    assert_eq!(converted[0].tool_calls.as_ref().unwrap().len(), 1);
    assert_eq!(converted[0].tool_calls.as_ref().unwrap()[0].id.as_deref(), Some("call_123"));
}

#[test]
fn convert_messages_parses_tool_result_object() {
    let tool_msg = r#"{"tool_call_id":"call_abc","result":{"output":"ok"}}"#;
    let messages = vec![ChatMessage::tool(tool_msg)];
    let converted = OpenAiProvider::convert_messages(&messages);

    assert_eq!(converted.len(), 1);
    assert_eq!(converted[0].role, "tool");
    assert_eq!(converted[0].tool_call_id.as_deref(), Some("call_abc"));
    assert_eq!(converted[0].content.as_deref(), Some(r#"{"output":"ok"}"#));
}

#[test]
fn openai_reads_provider_form_and_dunder_key() {
    let content = r#"{"text":"hi","__tool_calls":[{"id":"c1","function":{"name":"shell","arguments":"{}"}}]}"#;
    let converted = OpenAiProvider::convert_messages(&vec![ChatMessage::assistant(content)]);
    assert_eq!(converted[0].content.as_deref(), Some("hi"));
    let calls = converted[0].tool_calls.as_ref().unwrap();
    assert_eq!(calls[0].id.as_deref(), Some("c1"));
    assert_eq!(calls[0].kind.as_deref(), Some("function"));
    assert_eq!(calls[0].function.name, "shell");
    assert_eq!(calls[0].function.arguments, "{}");
}

#[test]
fn parse_provider_tool_calls_rejects_incomplete_items() {
    assert!(OpenAiProvider::parse_provider_tool_calls(&p(r#"[{"id":"a","name":"x"}]"#)).is_none());
    assert!(OpenAiProvider::parse_provider_tool_calls(&p(r#"{"id":"a"}"#)).is_none());
    let calls = OpenAiProvider::parse_provider_tool_calls(&p(r#"[["i","n","a"]]"#)).unwrap();
    assert_eq!(calls[0].id, "i");
    assert_eq!(calls[0].name, "n");
    assert_eq!(calls[0].arguments, "a");
}

#[test]
fn openrouter_convert_messages_plain_user() {
    let messages = vec![ChatMessage::user("Hello")];
    let converted = OpenRouterProvider::convert_messages(&messages);
    assert_eq!(converted.len(), 1);
    assert_eq!(converted[0].role, "user");
    assert_eq!(converted[0].content.as_deref(), Some("Hello"));
    assert!(converted[0].tool_calls.is_none());
    assert!(converted[0].tool_call_id.is_none());
}

#[test]
fn convert_messages_system_and_user() {
    let messages = vec![ChatMessage::system("Be helpful"), ChatMessage::user("Hi")];
    let converted = OpenRouterProvider::convert_messages(&messages);
    assert_eq!(converted.len(), 2);
    assert_eq!(converted[0].role, "system");
    assert_eq!(converted[0].content.as_deref(), Some("Be helpful"));
    assert_eq!(converted[1].role, "user");
}

#[test]
fn openrouter_convert_messages_parses_assistant_tool_calls() {
    let content = r#"{"content":"Let me check that","tool_calls":[{"id":"call_123","name":"shell","arguments":"{\"command\":\"pwd\"}"}]}"#;
    let messages = vec![ChatMessage::assistant(content)];
    let converted = OpenRouterProvider::convert_messages(&messages);

    assert_eq!(converted.len(), 1);
    assert_eq!(converted[0].role, "assistant");
    assert_eq!(converted[0].content.as_deref(), Some("Let me check that"));
    let tool_calls = converted[0].tool_calls.as_ref().unwrap();
    assert_eq!(tool_calls.len(), 1);
    assert_eq!(tool_calls[0].id.as_deref(), Some("call_123"));
    assert_eq!(tool_calls[0].kind.as_deref(), Some("function"));
    assert_eq!(tool_calls[0].function.name, "shell");
    assert_eq!(tool_calls[0].function.arguments, "{\"command\":\"pwd\"}");
}

#[test]
fn convert_messages_parses_tool_result() {
    let content = r#"{"tool_call_id":"call_123","content":"/home/user"}"#;
    let messages = vec![ChatMessage::tool(content)];
    let converted = OpenRouterProvider::convert_messages(&messages);

    assert_eq!(converted.len(), 1);
    assert_eq!(converted[0].role, "tool");
    assert_eq!(converted[0].tool_call_id.as_deref(), Some("call_123"));
    assert_eq!(converted[0].content.as_deref(), Some("/home/user"));
    assert!(converted[0].tool_calls.is_none());
}

#[test]
fn convert_messages_parses_assistant_tool_calls_array_format() {
    let tool_calls = r#"[{"id":"call_789","name":"shell","arguments":"{\"command\":\"ls -la\"}"}]"#;
    let messages = vec![ChatMessage::assistant(tool_calls)];
    let converted = OpenRouterProvider::convert_messages(&messages);

    assert_eq!(converted.len(), 1);
    assert_eq!(converted[0].role, "assistant");
    assert!(converted[0].content.is_none());

    let api_tool_calls = converted[0].tool_calls.as_ref().unwrap();
    assert_eq!(api_tool_calls.len(), 1);
    assert_eq!(api_tool_calls[0].id.as_deref(), Some("call_789"));
    assert_eq!(api_tool_calls[0].function.name, "shell");
    assert_eq!(api_tool_calls[0].function.arguments, "{\"command\":\"ls -la\"}");
}

#[test]
fn convert_messages_parses_tool_result_with_result_field() {
    let content = r#"{"tool_call_id":"call_789","result":{"success":true,"output":"file1.txt\nfile2.txt","error":null}}"#;
    let messages = vec![ChatMessage::tool(content)];
    let converted = OpenRouterProvider::convert_messages(&messages);

    assert_eq!(converted.len(), 1);
    assert_eq!(converted[0].tool_call_id.as_deref(), Some("call_789"));
    let content_str = converted[0].content.as_ref().unwrap();
    assert!(content_str.contains("file1.txt"));
    assert!(content_str.contains("success"));
}

#[test]
fn convert_messages_plain_assistant_no_tool_calls() {
    let messages = vec![ChatMessage::assistant("Just a text response")];
    let converted = OpenRouterProvider::convert_messages(&messages);

    assert_eq!(converted.len(), 1);
    assert_eq!(converted[0].role, "assistant");
    assert_eq!(converted[0].content.as_deref(), Some("Just a text response"));
    assert!(converted[0].tool_calls.is_none());
}

#[test]
fn tool_message_that_is_not_json_goes_as_it_is() {
    let converted = OpenRouterProvider::convert_messages(&vec![ChatMessage::tool("plain output")]);
    assert_eq!(converted[0].role, "tool");
    assert_eq!(converted[0].content.as_deref(), Some("plain output"));
    assert!(converted[0].tool_call_id.is_none());
}

fn one_call(id: Option<&str>) -> ApiResponseMessage {
    ApiResponseMessage {
        content: Some("Let me run that".to_string()),
        tool_calls: Some(vec![ApiToolCall {
            id: id.map(|s| s.to_string()),
            kind: Some("function".to_string()),
            function: ApiToolCallFunction { name: "shell".to_string(), arguments: r#"{"command":"ls"}"#.to_string() },
        }]),
    }
}

#[test]
fn parse_response_maps_usage_and_tool_calls() {
    let usage = Some(UsageCounts { prompt_tokens: Some(10), completion_tokens: Some(4), total_tokens: Some(14) });
    let parsed = OpenAiProvider::parse_response(one_call(Some("call_1")), usage);
    assert_eq!(parsed.text.as_deref(), Some("Let me run that"));
    assert_eq!(parsed.tool_calls.len(), 1);
    assert_eq!(parsed.tool_calls[0].id, "call_1");
    assert_eq!(parsed.tool_calls[0].name, "shell");
    assert_eq!(parsed.tool_calls[0].arguments, r#"{"command":"ls"}"#.to_string());
    assert_eq!(parsed.usage.as_ref().unwrap().total_tokens, 14);
}

#[test]
fn parse_response_text_only() {
    let message = ApiResponseMessage { content: Some("Hello there".to_string()), tool_calls: None };
    let response = OpenRouterProvider::parse_response(message, None);
    assert_eq!(response.text.as_deref(), Some("Hello there"));
    assert!(response.tool_calls.is_empty());
    assert!(response.usage.is_none());
}

#[test]
fn parse_response_with_tool_calls() {
    let usage = Some(UsageCounts { prompt_tokens: Some(100), completion_tokens: Some(50), total_tokens: Some(150) });
    let response = OpenRouterProvider::parse_response(one_call(Some("call_abc")), usage);
    assert_eq!(response.text.as_deref(), Some("Let me run that"));
    assert_eq!(response.tool_calls.len(), 1);
    assert_eq!(response.tool_calls[0].id, "call_abc");
    assert_eq!(response.tool_calls[0].name, "shell");
    assert_eq!(response.tool_calls[0].arguments, r#"{"command":"ls"}"#);
    let token_usage = response.usage.unwrap();
    assert_eq!(token_usage.prompt_tokens, 100);
    assert_eq!(token_usage.completion_tokens, 50);
    assert_eq!(token_usage.total_tokens, 150);
}

#[test]
fn parse_response_tool_call_without_id_gets_uuid() {
    let response = OpenRouterProvider::parse_response(one_call(None), None);
    assert_eq!(response.tool_calls.len(), 1);
    assert!(!response.tool_calls[0].id.is_empty());
    assert!(uuid::Uuid::parse_str(&response.tool_calls[0].id).is_ok());
}

#[test]
fn parse_response_reads_missing_counts_as_zero() {
    let usage = Some(UsageCounts { prompt_tokens: None, completion_tokens: Some(2), total_tokens: None });
    let response = OpenRouterProvider::parse_response(one_call(Some("x")), usage);
    let u = response.usage.unwrap();
    assert_eq!((u.prompt_tokens, u.completion_tokens, u.total_tokens), (0, 2, 0));
}

#[test]
fn parse_sse_payload_streams_text_and_usage() {
    let mut acc = StreamAccumulator::new();
    let mut chunks = acc.apply_payload(
        r#"{"choices":[{"delta":{"content":"hello "}}],"usage":{"prompt_tokens":3,"completion_tokens":2,"total_tokens":5}}"#,
    );
    chunks.extend(acc.apply_payload(r#"{"choices":[{"delta":{"content":"world"}}]}"#));

    assert_eq!(acc.text(), "hello world");
    assert_eq!(chunks, vec!["hello ".to_string(), "world".to_string()]);

    let parsed_usage = acc.usage().expect("usage should be parsed");
    assert_eq!(parsed_usage.prompt_tokens, Some(3));
    assert_eq!(parsed_usage.completion_tokens, Some(2));
    assert_eq!(parsed_usage.total_tokens, Some(5));
}

#[test]
fn parse_sse_payload_accumulates_tool_call_deltas() {
    let mut acc = StreamAccumulator::new();
    acc.apply_payload(
        r#"{"choices":[{"delta":{"tool_calls":[{"index":0,"id":"call_1","function":{"name":"shell","arguments":"{\"command\":\"echo"}}]}}]}"#,
    );
    acc.apply_payload(r#"{"choices":[{"delta":{"tool_calls":[{"index":0,"function":{"arguments":" hello\"}"}}]}}]}"#);

    let converted = acc.into_response().tool_calls;
    assert_eq!(converted.len(), 1);
    assert_eq!(converted[0].id, "call_1");
    assert_eq!(converted[0].name, "shell");
    assert_eq!(converted[0].arguments, "{\"command\":\"echo hello\"}");
}

#[test]
fn parse_sse_payload_ignores_malformed_and_done_lines() {
    let mut acc = StreamAccumulator::new();
    assert!(acc.apply_payload("not-json").is_empty());
    assert!(acc.apply_payload("[DONE]").is_empty());
    assert!(acc.text().is_empty());
    assert_eq!(acc.draft_count(), 0);
}

#[test]
fn streamed_calls_get_defaults_for_blank_name_and_arguments() {
    let mut acc = StreamAccumulator::new();
    acc.apply_payload(r#"{"choices":[{"delta":{"tool_calls":[{"index":2,"id":"c2"}]}}]}"#);
    acc.apply_payload(r#"{"choices":[{"delta":{"tool_calls":[{"index":0,"function":{"name":"read"}}]}}]}"#);
    acc.apply_payload(r#"{"choices":[{"delta":{"tool_calls":[{"index":1}]}}]}"#);
    let response = acc.into_response();
    assert!(response.text.is_none());
    assert_eq!(response.tool_calls.len(), 2);
    assert_eq!(response.tool_calls[0].name, "read");
    assert_eq!(response.tool_calls[0].arguments, "{}");
    assert!(uuid::Uuid::parse_str(&response.tool_calls[0].id).is_ok());
    assert_eq!(response.tool_calls[1].id, "c2");
    assert_eq!(response.tool_calls[1].name, "unknown_tool");
}

#[test]
fn streamed_name_pieces_merge() {
    let mut acc = StreamAccumulator::new();
    acc.apply_payload(r#"{"choices":[{"delta":{"tool_calls":[{"index":0,"id":"a","function":{"name":"file"}}]}}]}"#);
    acc.apply_payload(r#"{"choices":[{"delta":{"tool_calls":[{"index":0,"function":{"name":"filesystem_read"}}]}}]}"#);
    acc.apply_payload(r#"{"choices":[{"delta":{"tool_calls":[{"index":0,"function":{"name":"read"}}]}}]}"#);
    let calls = acc.into_response().tool_calls;
    assert_eq!(calls[0].name, "filesystem_read");
}

#[test]
fn sse_decoder_splits_events_across_chunks() {
    let mut dec = SseDecoder::new();
    let first = dec.feed("data: {\"a\":1}\r\nda");
    assert!(first.is_empty());
    let second = dec.feed("ta: x\n\ndata: tail");
    assert_eq!(second, vec!["{\"a\":1}\nx".to_string()]);
    assert_eq!(dec.finish().as_deref(), Some("tail"));
}

#[test]
fn json_strings_are_escaped_as_serde_does() {
    let mut out = String::new();
    push_json_string(&mut out, "a\"b\\c\n\t\u{1}é");
    assert_eq!(out, serde_json::to_string("a\"b\\c\n\t\u{1}é").unwrap());
}

#[test]
fn tool_call_record_matches_serde_json() {
    let calls = vec![ToolCall { id: "c1".to_string(), name: "shell".to_string(), arguments: "{\"command\":\"ls\"}".to_string() }];
    let record = encode_tool_calls_message("text", &calls);
    let mut call = serde_json::Map::new();
    call.insert("id".to_string(), serde_json::Value::String("c1".to_string()));
    call.insert("name".to_string(), serde_json::Value::String("shell".to_string()));
    call.insert("arguments".to_string(), serde_json::Value::String("{\"command\":\"ls\"}".to_string()));
    let mut top = serde_json::Map::new();
    top.insert("tool_calls".to_string(), serde_json::Value::Array(vec![serde_json::Value::Object(call)]));
    top.insert("content".to_string(), serde_json::Value::String("text".to_string()));
    let expected = serde_json::Value::Object(top).to_string();
    assert_eq!(record, expected);
    assert_eq!(record, r#"{"content":"text","tool_calls":[{"arguments":"{\"command\":\"ls\"}","id":"c1","name":"shell"}]}"#);
    let result = encode_tool_result("c1", "out\n", &ToolCallStatus::Denied);
    let mut res = serde_json::Map::new();
    res.insert("tool_call_id".to_string(), serde_json::Value::String("c1".to_string()));
    res.insert("content".to_string(), serde_json::Value::String("out\n".to_string()));
    res.insert("status".to_string(), serde_json::Value::String("denied".to_string()));
    let expected = serde_json::Value::Object(res).to_string();
    assert_eq!(result, expected);
}

#[test]
fn recorded_tool_calls_read_back() {
    let calls = vec![ToolCall { id: "c9".to_string(), name: "glob".to_string(), arguments: "{}".to_string() }];
    let record = encode_tool_calls_message("", &calls);
    let converted = OpenRouterProvider::convert_messages(&vec![ChatMessage::assistant(&record)]);
    let back = converted[0].tool_calls.as_ref().unwrap();
    assert_eq!(back[0].id.as_deref(), Some("c9"));
    assert_eq!(back[0].function.name, "glob");
    assert_eq!(converted[0].content.as_deref(), Some(""));
}

#[test]
fn event_stream_decodes_alike_however_it_is_cut() {
    let text = "data: {\"a\":1}\r\n\r\ndata: x\ndata: y\n\n: note\ndata: z";
    let mut whole = SseDecoder::new();
    let mut expected = whole.feed(text);
    expected.extend(whole.finish());
    for cut in 0..=text.len() {
        if !text.is_char_boundary(cut) {
            continue;
        }
        let mut d = SseDecoder::new();
        let mut got = d.feed(&text[..cut]);
        got.extend(d.feed(&text[cut..]));
        got.extend(d.finish());
        assert_eq!(got, expected, "cut at {}", cut);
    }
    assert_eq!(expected, vec!["{\"a\":1}".to_string(), "x\ny".to_string(), "z".to_string()]);
}

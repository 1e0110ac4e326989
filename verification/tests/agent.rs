use rika::agent::{
    approval_action, final_text, persisted_message, refusal_output, suggested_allow_rule, tool_args, AgentAction,
    AgentEvent, AgentRun, ApprovalAction, ResponseStep, ToolApprovalDecisionKind, MAX_ITERATIONS,
};
use rika::json::JsonValue;
use rika::providers::{ChatMessage, ChatResponse, TokenUsage, ToolCall};
use rika::tools::ToolCallStatus;

fn call(id: &str, name: &str, args: &str) -> ToolCall {
    ToolCall { id: id.to_string(), name: name.to_string(), arguments: args.to_string() }
}

fn reply(text: Option<&str>, calls: Vec<ToolCall>, usage: Option<(u32, u32, u32)>) -> ChatResponse {
    ChatResponse {
        text: text.map(|t| t.to_string()),
        tool_calls: calls,
        usage: usage.map(|(p, c, t)| TokenUsage { prompt_tokens: p, completion_tokens: c, total_tokens: t }),
    }
}

#[test]
fn run_without_tool_calls_finishes_with_the_text() {
    let mut run = AgentRun::new(vec![], "hi");
    match run.next_action("sys") {
        AgentAction::CallModel(ms) => {
            assert_eq!(ms.len(), 2);
            assert_eq!(ms[0].role, "system");
            assert_eq!(ms[0].content, "sys");
            assert_eq!(ms[1].role, "user");
            assert_eq!(ms[1].content, "hi");
        }
        _ => panic!("expected a model call"),
    }
    match run.on_model_response(reply(Some("hello"), vec![], Some((3, 2, 5)))) {
        ResponseStep::Final(t) => assert_eq!(t, "hello"),
        _ => panic!("expected a final answer"),
    }
    assert!(matches!(run.next_action("sys"), AgentAction::Finished));
    assert!(run.tally().has_usage);
    assert_eq!(run.tally().usage.total_tokens, 5);
    let history = run.into_history();
    assert_eq!(history.len(), 2);
    assert_eq!(history[1].role, "assistant");
    assert_eq!(history[1].content, "hello");
}

#[test]
fn missing_text_is_no_response() {
    let mut run = AgentRun::new(vec![ChatMessage::user("earlier")], "hi");
    assert!(matches!(run.next_action("s"), AgentAction::CallModel(_)));
    match run.on_model_response(reply(None, vec![], None)) {
        ResponseStep::Final(t) => assert_eq!(t, "(no response)"),
        _ => panic!("expected a final answer"),
    }
    assert!(!run.tally().has_usage);
    assert_eq!(final_text(None), "(no response)");
}

#[test]
fn tool_calls_are_recorded_run_and_reported() {
    let mut run = AgentRun::new(vec![], "list files");
    let _ = run.next_action("s");
    let step = run.on_model_response(reply(
        Some("Let me look"),
        vec![call("c1", "shell", r#"{"command":"ls"}"#), call("c2", "filesystem_read", r#"{"path":"a"}"#)],
        None,
    ));
    match step {
        ResponseStep::ToolCalls(chunk) => assert_eq!(chunk.as_deref(), Some("Let me look")),
        _ => panic!("expected tool calls"),
    }
    match run.next_action("s") {
        AgentAction::RunTool(c) => assert_eq!(c.id, "c1"),
        _ => panic!("expected the first call"),
    }
    run.on_tool_result("file1", ToolCallStatus::Success);
    match run.next_action("s") {
        AgentAction::RunTool(c) => assert_eq!(c.name, "filesystem_read"),
        _ => panic!("expected the second call"),
    }
    run.on_tool_result("denied", ToolCallStatus::Denied);
    match run.next_action("s") {
        AgentAction::CallModel(ms) => assert_eq!(ms.len(), 1 + 4),
        _ => panic!("expected a model call"),
    }
    assert_eq!(run.tally().tool_call_count, 2);
    assert_eq!(run.tally().tool_call_success, 1);
    assert_eq!(run.tally().tool_call_denied, 1);
    let history = run.into_history();
    assert_eq!(
        history[1].content,
        r#"{"content":"Let me look","tool_calls":[{"arguments":"{\"command\":\"ls\"}","id":"c1","name":"shell"},{"arguments":"{\"path\":\"a\"}","id":"c2","name":"filesystem_read"}]}"#
    );
    assert_eq!(history[2].role, "tool");
    assert_eq!(history[2].content, r#"{"content":"file1","status":"success","tool_call_id":"c1"}"#);
}

#[test]
fn empty_text_beside_tool_calls_is_not_a_chunk() {
    let mut run = AgentRun::new(vec![], "x");
    let _ = run.next_action("s");
    match run.on_model_response(reply(Some(""), vec![call("c", "shell", "{}")], None)) {
        ResponseStep::ToolCalls(chunk) => assert!(chunk.is_none()),
        _ => panic!("expected tool calls"),
    }
}

#[test]
fn run_gives_up_after_max_iterations() {
    let mut run = AgentRun::new(vec![], "loop");
    for i in 0..MAX_ITERATIONS {
        assert!(matches!(run.next_action("s"), AgentAction::CallModel(_)));
        let _ = run.on_model_response(reply(None, vec![call(&format!("c{}", i), "shell", "{}")], None));
        assert!(matches!(run.next_action("s"), AgentAction::RunTool(_)));
        run.on_tool_result("ok", ToolCallStatus::Failed);
    }
    match run.next_action("s") {
        AgentAction::GiveUp(m) => {
            assert_eq!(m, "Agent reached maximum iterations (30) without a final response.")
        }
        _ => panic!("expected to give up"),
    }
    assert_eq!(run.tally().tool_call_failed, 30);
}

#[test]
fn approval_answers_map_to_actions() {
    assert!(approval_action(Some(ToolApprovalDecisionKind::AllowPersist)) == ApprovalAction::RunChecked);
    assert!(approval_action(Some(ToolApprovalDecisionKind::AllowOnce)) == ApprovalAction::RunUnchecked);
    assert!(approval_action(Some(ToolApprovalDecisionKind::Deny)) == ApprovalAction::Refuse);
    assert!(approval_action(None) == ApprovalAction::Refuse);
    assert_eq!(refusal_output(Some(ToolApprovalDecisionKind::Deny)), "Tool call denied by user decision.");
    assert_eq!(refusal_output(None), "Tool approval timed out; tool call denied.");
}

#[test]
fn suggested_rules_for_common_tools() {
    let args = tool_args(r#"{"command":"git status --short"}"#);
    assert_eq!(suggested_allow_rule("shell", &args), "shell(command:git status *)");
    assert_eq!(suggested_allow_rule("shell", &tool_args(r#"{"command":"  "}"#)), "shell(*)");
    assert_eq!(suggested_allow_rule("mcp_linear__search", &tool_args("{}")), "mcp_linear_*(*)");
    assert_eq!(
        suggested_allow_rule("filesystem_read", &tool_args(r#"{"path":"docs\\a\\b.md"}"#)),
        "filesystem_read(path:docs/a/*)"
    );
    let args = tool_args("not json");
    assert!(matches!(args, JsonValue::Object(ref es, ref t) if es.is_empty() && t == "{}"));
}

#[test]
fn persist_agent_event_appends_tool_call_and_tool_result_messages() {
    let start = AgentEvent::ToolCallStart {
        call_id: "call-1".to_string(),
        name: "shell".to_string(),
        args: tool_args(r#"{"command": "pwd"}"#),
    };
    let m = persisted_message(&start).unwrap();
    assert_eq!(m.role, "assistant");
    assert_eq!(
        m.content,
        r#"{"content":"","tool_calls":[{"arguments":"{\"command\":\"pwd\"}","id":"call-1","name":"shell"}]}"#
    );

    let result = AgentEvent::ToolCallResult {
        call_id: "call-1".to_string(),
        name: "shell".to_string(),
        output: "/tmp".to_string(),
        success: true,
        status: ToolCallStatus::Success,
        approval_request_id: None,
        awaiting_approval: false,
    };
    let m = persisted_message(&result).unwrap();
    assert_eq!(m.role, "tool");
    assert_eq!(m.content, r#"{"content":"/tmp","status":"success","tool_call_id":"call-1"}"#);

    let waiting = AgentEvent::ToolCallResult {
        call_id: "call-2".to_string(),
        name: "shell".to_string(),
        output: "denied".to_string(),
        success: false,
        status: ToolCallStatus::Denied,
        approval_request_id: Some("r".to_string()),
        awaiting_approval: true,
    };
    assert!(persisted_message(&waiting).is_none());

    let err = AgentEvent::Error { message: "boom".to_string() };
    assert_eq!(persisted_message(&err).unwrap().content, "Error: boom");
    assert!(persisted_message(&AgentEvent::Chunk { content: "x".to_string() }).is_none());
}

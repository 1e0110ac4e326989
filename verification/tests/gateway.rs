use rika::agent::ToolApprovalDecisionKind;
use rika::config::{PermissionsConfig, ToolPermissionsConfig};
use rika::gateway::{
    client_command, is_relevant_session_event, is_session_file_name, required_field, sanitize_rules, with_allow_rule,
    ClientCommand, ClientMessage, WatchEventKind,
};

fn msg(kind: &str) -> ClientMessage {
    ClientMessage {
        msg_type: kind.to_string(),
        content: None,
        session_id: None,
        request_id: None,
        decision: None,
        allow_rule: None,
        queue_item_id: None,
    }
}

#[test]
fn chat_message_goes_to_named_or_current_session() {
    let mut m = msg("message");
    m.content = Some("hello".to_string());
    match client_command(&m, "cur") {
        ClientCommand::Submit { session_id, content } => {
            assert_eq!(session_id, "cur");
            assert_eq!(content, "hello");
        }
        _ => panic!("expected a submission"),
    }
    m.session_id = Some("  other ".to_string());
    match client_command(&m, "cur") {
        ClientCommand::Submit { session_id, .. } => assert_eq!(session_id, "other"),
        _ => panic!("expected a submission"),
    }
    m.content = Some("   ".to_string());
    assert!(matches!(client_command(&m, "cur"), ClientCommand::Ignore));
}

#[test]
fn kill_switch_and_queue_cancel_target_sessions() {
    let mut m = msg("kill_switch");
    m.session_id = Some(" ".to_string());
    assert!(matches!(client_command(&m, "cur"), ClientCommand::Stop { ref session_id } if session_id == "cur"));
    let mut q = msg("queue_cancel");
    q.queue_item_id = Some(" q1 ".to_string());
    match client_command(&q, "cur") {
        ClientCommand::CancelQueued { session_id, item_id } => {
            assert_eq!(session_id, "cur");
            assert_eq!(item_id.as_deref(), Some("q1"));
        }
        _ => panic!("expected a cancellation"),
    }
}

#[test]
fn approval_answers_need_their_fields() {
    let mut m = msg("tool_approval_decision");
    match client_command(&m, "cur") {
        ClientCommand::Error(e) => {
            assert_eq!(e, "Failed to apply tool approval decision: missing required field 'request_id'")
        }
        _ => panic!("expected an error"),
    }
    m.request_id = Some("r1".to_string());
    match client_command(&m, "cur") {
        ClientCommand::Error(e) => assert!(e.ends_with("missing required field 'decision'")),
        _ => panic!("expected an error"),
    }
    m.decision = Some(ToolApprovalDecisionKind::AllowPersist);
    match client_command(&m, "cur") {
        ClientCommand::Error(e) => assert!(e.ends_with("missing required field 'allow_rule'")),
        _ => panic!("expected an error"),
    }
    m.allow_rule = Some(" shell(ls *) ".to_string());
    match client_command(&m, "cur") {
        ClientCommand::Approve { request_id, decision, allow_rule } => {
            assert_eq!(request_id, "r1");
            assert!(decision == ToolApprovalDecisionKind::AllowPersist);
            assert_eq!(allow_rule.as_deref(), Some("shell(ls *)"));
        }
        _ => panic!("expected an approval"),
    }
    m.decision = Some(ToolApprovalDecisionKind::Deny);
    assert!(matches!(client_command(&m, "cur"), ClientCommand::Approve { allow_rule: None, .. }));
}

#[test]
fn unknown_message_type_is_an_error() {
    match client_command(&msg("ping"), "cur") {
        ClientCommand::Error(e) => assert_eq!(e, "Unsupported WebSocket message type: ping"),
        _ => panic!("expected an error"),
    }
}

#[test]
fn required_field_trims_and_reports() {
    assert_eq!(required_field(&Some(" x ".to_string()), "f").ok().as_deref(), Some("x"));
    assert_eq!(required_field(&None, "path").err().as_deref(), Some("missing required field 'path'"));
}

#[test]
fn rules_are_sanitized() {
    let raw = vec![" a ".to_string(), "".to_string(), "  ".to_string(), "b".to_string()];
    assert_eq!(sanitize_rules(&raw), vec!["a".to_string(), "b".to_string()]);
}

#[test]
fn allow_rule_is_added_once() {
    let cfg = PermissionsConfig {
        enabled: true,
        tools: ToolPermissionsConfig { allow: vec!["shell(ls *)".to_string()], deny: vec!["x".to_string()] },
    };
    let same = with_allow_rule(&cfg, " shell(ls *) ").ok().unwrap();
    assert_eq!(same.tools.allow, vec!["shell(ls *)".to_string()]);
    let more = with_allow_rule(&cfg, "glob(*)").ok().unwrap();
    assert_eq!(more.tools.allow, vec!["shell(ls *)".to_string(), "glob(*)".to_string()]);
    assert_eq!(more.tools.deny, vec!["x".to_string()]);
    assert_eq!(with_allow_rule(&cfg, "  ").err().as_deref(), Some("allow_rule cannot be empty"));
}

#[test]
fn session_file_changes_are_relevant() {
    assert!(is_session_file_name("sessions.json"));
    assert!(is_session_file_name("abc.jsonl"));
    assert!(!is_session_file_name("notes.txt"));
    let names = vec![Some("notes.txt".to_string()), Some("abc.jsonl".to_string())];
    assert!(is_relevant_session_event(WatchEventKind::Modify, &names));
    assert!(!is_relevant_session_event(WatchEventKind::Access, &names));
    assert!(is_relevant_session_event(WatchEventKind::Create, &vec![]));
    assert!(!is_relevant_session_event(WatchEventKind::Remove, &vec![Some("x.tmp".to_string()), None]));
}

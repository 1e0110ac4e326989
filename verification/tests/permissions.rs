use rika::config::{PermissionsConfig, ToolPermissionsConfig};
use rika::json::JsonValue;
use rika::permissions::{PermissionEngine, RuleErrorKind};

fn jv(v: &serde_json::Value) -> JsonValue {
    let text = serde_json::to_string(v).unwrap();
    match v {
        serde_json::Value::Null => JsonValue::Null,
        serde_json::Value::String(s) => JsonValue::Str(s.clone(), text),
        serde_json::Value::Bool(_) | serde_json::Value::Number(_) => JsonValue::Scalar(text),
        serde_json::Value::Array(items) => JsonValue::Array(items.iter().map(jv).collect(), text),
        serde_json::Value::Object(map) => JsonValue::Object(
            map.iter().map(|(k, v)| (k.clone(), jv(v))).collect(),
            text,
        ),
    }
}

fn p(text: &str) -> JsonValue {
    jv(&serde_json::from_str::<serde_json::Value>(text).unwrap())
}

fn cfg(enabled: bool, allow: &[&str], deny: &[&str]) -> PermissionsConfig {
    PermissionsConfig {
        enabled,
        tools: ToolPermissionsConfig {
            allow: allow.iter().map(|s| s.to_string()).collect(),
            deny: deny.iter().map(|s| s.to_string()).collect(),
        },
    }
}

#[test]
fn denies_by_default_when_enabled_and_allow_empty() {
    let engine = PermissionEngine::from_config(&cfg(true, &[], &[])).ok().unwrap();
    let decision = engine.evaluate("shell", &p(r#"{"command":"echo hi"}"#));
    assert!(!decision.allowed);
    assert!(decision.reason.contains("default deny"));
}

#[test]
fn allow_rule_matches_shell_raw_pattern() {
    let engine = PermissionEngine::from_config(&cfg(true, &["shell(git commit *)"], &[]))
        .ok()
        .unwrap();
    let allowed = engine.evaluate("shell", &p(r#"{"command":"git commit -m hi"}"#));
    let denied = engine.evaluate(
        "shell",
        &p(r#"{"command":"git push origin main"}"#),
    );
    assert!(allowed.allowed);
    assert!(!denied.allowed);
}

#[test]
fn deny_rule_takes_precedence() {
    let engine = PermissionEngine::from_config(&cfg(true, &["shell(git *)"], &["shell(git push *)"]))
        .ok()
        .unwrap();
    let decision = engine.evaluate(
        "shell",
        &p(r#"{"command":"git push origin main"}"#),
    );
    assert!(!decision.allowed);
    assert!(decision.reason.contains("deny rule"));
}

#[test]
fn structured_selector_matches() {
    let engine = PermissionEngine::from_config(&cfg(true, &["filesystem_read(path:docs/*)"], &[]))
        .ok()
        .unwrap();
    let allow = engine.evaluate("filesystem_read", &p(r#"{"path":"docs/prd.md"}"#));
    let deny = engine.evaluate("filesystem_read", &p(r#"{"path":"src/main.rs"}"#));
    assert!(allow.allowed);
    assert!(!deny.allowed);
}

#[test]
fn wildcard_tool_pattern_is_supported() {
    let engine = PermissionEngine::from_config(&cfg(true, &["mcp_linear_*(*)"], &[])).ok().unwrap();
    let allowed = engine.evaluate("mcp_linear__search_issues", &p(r#"{}"#));
    let denied = engine.evaluate("mcp_notion__search", &p(r#"{}"#));
    assert!(allowed.allowed);
    assert!(!denied.allowed);
}

#[test]
fn disabled_engine_allows_everything() {
    let engine = PermissionEngine::from_config(&cfg(false, &[], &["shell(*)"])).ok().unwrap();
    let decision = engine.evaluate("shell", &p(r#"{"command":"rm -rf /"}"#));
    assert!(decision.allowed);
    assert_eq!(decision.reason, "allowed");
    assert!(PermissionEngine::disabled_allow_all().evaluate("x", &JsonValue::Null).allowed);
}

#[test]
fn deny_reason_names_the_rule_and_no_match_reason() {
    let engine = PermissionEngine::from_config(&cfg(true, &["web_fetch(*)"], &["  shell(rm *) "]))
        .ok()
        .unwrap();
    let d = engine.evaluate("SHELL", &p(r#"{"command":"rm x"}"#));
    assert_eq!(d.reason, "Tool call blocked by deny rule `shell(rm *)`");
    let d = engine.evaluate("shell", &p(r#"{"command":"ls"}"#));
    assert_eq!(d.reason, "Tool call blocked: no allow rule matched");
}

#[test]
fn wildcard_does_not_cross_newlines() {
    let engine = PermissionEngine::from_config(&cfg(true, &["shell(echo *)"], &[])).ok().unwrap();
    assert!(engine.evaluate("shell", &p(r#"{"command":"echo a b"}"#)).allowed);
    assert!(!engine.evaluate("shell", &p(r#"{"command":"echo a\nrm b"}"#)).allowed);
}

#[test]
fn raw_rule_matches_json_text_for_other_tools() {
    let engine = PermissionEngine::from_config(&cfg(true, &["web_search(*rust*)"], &[]))
        .ok()
        .unwrap();
    assert!(engine.evaluate("web_search", &p(r#"{"query":"rust tooling"}"#)).allowed);
    assert!(!engine.evaluate("web_search", &p(r#"{"query":"go"}"#)).allowed);
}

#[test]
fn selector_reaches_array_elements_and_non_strings() {
    let engine = PermissionEngine::from_config(&cfg(true, &["t(items.1:b, n:4*)"], &[])).ok().unwrap();
    assert!(engine.evaluate("t", &p(r#"{"items":["a","b"],"n":42}"#)).allowed);
    assert!(!engine.evaluate("t", &p(r#"{"items":["a","c"],"n":42}"#)).allowed);
    assert!(!engine.evaluate("t", &p(r#"{"items":["a"],"n":42}"#)).allowed);
}

#[test]
fn from_config_rejects_malformed_rules() {
    let err = PermissionEngine::from_config(&cfg(true, &["shell"], &[])).err().unwrap();
    assert!(err.kind == RuleErrorKind::MissingOpenParen);
    let err = PermissionEngine::from_config(&cfg(true, &["ok(*)"], &["(x)"])).err().unwrap();
    assert!(err.kind == RuleErrorKind::EmptyToolName);
    assert!(err.deny_list);
    let err = PermissionEngine::from_config(&cfg(true, &["a(*)", "  "], &[])).err().unwrap();
    assert!(err.kind == RuleErrorKind::EmptyRule);
    assert_eq!(err.index, 1);
    let err = PermissionEngine::from_config(&cfg(true, &["a(b) x"], &[])).err().unwrap();
    assert!(err.kind == RuleErrorKind::MalformedParens);
    let err = PermissionEngine::from_config(&cfg(true, &["a(p..q:x)"], &[])).err().unwrap();
    assert!(err.kind == RuleErrorKind::EmptyPathSegment);
    let err = PermissionEngine::from_config(&cfg(true, &["a(p$:x)"], &[])).err().unwrap();
    assert!(err.kind == RuleErrorKind::InvalidPathCharacters);
    let many: Vec<&str> = std::iter::repeat("a(*)").take(501).collect();
    let err = PermissionEngine::from_config(&cfg(true, &many, &[])).err().unwrap();
    assert!(err.kind == RuleErrorKind::TooManyRules);
}

#[test]
fn rule_errors_read_as_messages() {
    let config = PermissionsConfig {
        enabled: true,
        tools: ToolPermissionsConfig { allow: vec!["shell".to_string()], deny: vec![] },
    };
    let err = PermissionEngine::from_config(&config).err().unwrap();
    assert_eq!(err.message(), "invalid rule 'shell': missing '('");
    let config = PermissionsConfig {
        enabled: true,
        tools: ToolPermissionsConfig { allow: vec![], deny: vec!["  ".to_string()] },
    };
    let err = PermissionEngine::from_config(&config).err().unwrap();
    assert_eq!(err.message(), "deny rule at index 0 cannot be empty");
}

#[test]
fn enriches_web_fetch_args_with_domain() {
    let args = p(r#"{"url": "https://Docs.OpenClaw.ai/path/to/page?x=1"}"#);
    assert_eq!(rika::tools::permission_domain("web_fetch", &args), Some("docs.openclaw.ai".to_string()));
}

#[test]
fn leaves_non_web_fetch_args_untouched() {
    let args = p(r#"{"query": "rust tooling"}"#);
    assert_eq!(rika::tools::permission_domain("web_search", &args), None);
}

#[test]
fn denied_call_carries_the_reason_as_error() {
    let config = PermissionsConfig {
        enabled: true,
        tools: ToolPermissionsConfig { allow: vec!["filesystem_read(*)".to_string()], deny: vec![] },
    };
    let engine = PermissionEngine::from_config(&config).ok().unwrap();
    let args = p(r#"{"command": "ls"}"#);
    let d = rika::tools::check_tool_permission(&engine, "shell", &args, true).unwrap();
    assert!(d.status == rika::tools::ToolCallStatus::Denied);
    assert_eq!(d.error, Some(d.output.clone()));
    assert!(rika::tools::check_tool_permission(&engine, "shell", &args, false).is_none());
}

use rika::config::{McpAuthMode, McpServerConfig, McpTransport};
use rika::mcp_oauth::{merge_scopes, parse_bearer_www_authenticate};
use rika::mcp_runtime::{on_connect_outcome, retry_delay_secs, ConnectStep, McpServerState, McpStatusTable};
use rika::tools::{create_transport, mcp_prefixed_name, ShellTool, TransportKind};

fn http_server(name: &str) -> McpServerConfig {
    McpServerConfig {
        name: name.to_string(),
        enabled: true,
        transport: McpTransport::Http,
        auth_mode: McpAuthMode::Headers,
        command: None,
        args: vec![],
        env: vec![],
        cwd: None,
        url: Some("https://mcp.linear.app/mcp".to_string()),
        headers: vec![],
        oauth_client_id: None,
        oauth_client_secret_env: None,
        oauth_scopes: vec![],
        oauth_authorization_server: None,
        tool_timeout_secs: None,
        init_timeout_secs: None,
    }
}

#[test]
fn snapshot_marks_enabled_servers_pending() {
    let runtime = McpStatusTable::new(true, &vec![http_server("linear")]);
    let snapshot = runtime.snapshot();
    assert!(snapshot.enabled);
    assert_eq!(snapshot.servers.len(), 1);
    assert_eq!(snapshot.servers[0].state, McpServerState::Pending);
}

#[test]
fn snapshot_marks_disabled_servers_disabled() {
    let mut off = http_server("off");
    off.enabled = false;
    let runtime = McpStatusTable::new(true, &vec![http_server("on"), off]);
    let snapshot = runtime.snapshot();
    assert_eq!(snapshot.servers.len(), 2);
    assert_eq!(snapshot.servers[0].name, "on");
    assert_eq!(snapshot.servers[0].state, McpServerState::Pending);
    assert_eq!(snapshot.servers[1].name, "off");
    assert_eq!(snapshot.servers[1].state, McpServerState::Disabled);

    let all_off = McpStatusTable::new(false, &vec![http_server("on")]);
    assert!(!all_off.snapshot().enabled);
    assert_eq!(all_off.snapshot().servers[0].state, McpServerState::Disabled);
}

#[test]
fn retry_delay_is_capped() {
    assert_eq!(retry_delay_secs(0), 1);
    assert_eq!(retry_delay_secs(1), 2);
    assert_eq!(retry_delay_secs(2), 4);
    assert_eq!(retry_delay_secs(3), 8);
    assert_eq!(retry_delay_secs(4), 15);
    assert_eq!(retry_delay_secs(9), 30);
}

#[test]
fn parse_bearer_challenge_extracts_basic_fields() {
    let parsed = parse_bearer_www_authenticate(
        r#"Bearer realm="OAuth", error="invalid_token", scope="a b c", resource_metadata="https://example.com/.well-known/oauth-protected-resource""#,
    )
    .expect("should parse");

    assert_eq!(parsed.get("realm"), Some("OAuth"));
    assert_eq!(parsed.get("error"), Some("invalid_token"));
    assert_eq!(parsed.get("scope"), Some("a b c"));
    assert_eq!(
        parsed.get("resource_metadata"),
        Some("https://example.com/.well-known/oauth-protected-resource")
    );
}

#[test]
fn parse_bearer_challenge_ignores_non_bearer_scheme() {
    assert!(parse_bearer_www_authenticate("Basic abc123").is_none());
}

#[test]
fn parse_bearer_challenge_keys_are_case_insensitive() {
    let parsed = parse_bearer_www_authenticate(r#"bearer Realm="x""#).expect("should parse");
    assert_eq!(parsed.get("realm"), Some("x"));
    assert_eq!(parsed.get("REALM"), Some("x"));
}

#[test]
fn merge_scopes_deduplicates_and_sorts() {
    let merged = merge_scopes(&vec!["write".to_string(), "read".to_string()], Some("read admin"))
        .expect("scope should exist");
    assert_eq!(merged, "admin read write");
}

#[test]
fn merge_scopes_without_any_scope_is_none() {
    assert!(merge_scopes(&vec![], None).is_none());
    assert!(merge_scopes(&vec!["  ".to_string()], Some("   ")).is_none());
}

#[test]
fn prefixed_name_format() {
    let prefixed = mcp_prefixed_name("linear", "search_issues");
    assert_eq!(prefixed, "linear__search_issues");
}

#[test]
fn transport_kind_follows_config() {
    let mut s = http_server("a");
    assert!(create_transport(&s) == Ok(TransportKind::Http));
    s.transport = McpTransport::Stdio;
    assert_eq!(create_transport(&s).err(), Some("stdio transport requires command".to_string()));
    s.command = Some("server".to_string());
    assert!(create_transport(&s) == Ok(TransportKind::Stdio));
    s.transport = McpTransport::Http;
    s.url = None;
    assert_eq!(create_transport(&s).err(), Some("http transport requires url".to_string()));
}

#[test]
fn shell_tool_name() {
    let tool = ShellTool::new(30);
    assert_eq!(tool.name(), "shell");
}

#[test]
fn callback_gives_code_and_state() {
    let out = rika::mcp_oauth::read_callback(
        "GET /oauth/callback?code=abc%20d&state=xyz&code=last HTTP/1.1\r\nHost: 127.0.0.1\r\n\r\n",
        "/oauth/callback",
    );
    assert_eq!(out.result.as_ref().ok().cloned(), Some(("last".to_string(), "xyz".to_string())));
    let (code, body) = out.reply.unwrap();
    assert_eq!(code, 200);
    assert_eq!(body, "OAuth login completed. You can close this tab.");
}

#[test]
fn callback_refuses_wrong_target_and_errors() {
    let out = rika::mcp_oauth::read_callback("POST /oauth/callback HTTP/1.1\r\n", "/oauth/callback");
    assert_eq!(out.reply.as_ref().map(|r| r.0), Some(400));
    assert_eq!(out.result.err().as_deref(), Some("unexpected OAuth callback target 'POST /oauth/callback'"));
    let out = rika::mcp_oauth::read_callback(
        "GET /oauth/callback?error=access_denied&error_description=no+way HTTP/1.1",
        "/oauth/callback",
    );
    assert_eq!(out.result.err().as_deref(), Some("OAuth callback error: access_denied no way"));
    let out = rika::mcp_oauth::read_callback("GET /oauth/callback?state=s HTTP/1.1", "/oauth/callback");
    assert!(out.reply.is_none());
    assert_eq!(out.result.err().as_deref(), Some("OAuth callback is missing 'code' parameter"));
    let out = rika::mcp_oauth::read_callback("", "/oauth/callback");
    assert_eq!(out.result.err().as_deref(), Some("received empty OAuth callback request"));
}

#[test]
fn callback_response_has_length_and_html() {
    let text = rika::mcp_oauth::callback_response_text(400, "é");
    let html = "<!doctype html><html><body><p>é</p></body></html>";
    assert_eq!(
        text,
        format!(
            "HTTP/1.1 400 Bad Request\r\nContent-Type: text/html; charset=utf-8\r\nContent-Length: {}\r\nConnection: close\r\n\r\n{}",
            html.len(),
            html
        )
    );
    assert!(rika::mcp_oauth::check_callback_state("a", "b").is_err());
    assert!(rika::mcp_oauth::check_callback_state("a", "a").is_ok());
}

#[test]
fn code_exchange_form_lists_fields_in_order() {
    let form = rika::mcp_oauth::code_exchange_form("c", "http://127.0.0.1:1/cb", "id", "v", Some("s"));
    let names: Vec<&str> = form.iter().map(|(k, _)| k.as_str()).collect();
    assert_eq!(names, vec!["grant_type", "code", "redirect_uri", "client_id", "code_verifier", "client_secret"]);
    assert_eq!(form[0].1, "authorization_code");
    assert_eq!(rika::mcp_oauth::code_exchange_form("c", "r", "i", "v", None).len(), 5);
}

#[test]
fn pkce_challenge_matches_rfc_example() {
    let challenge = rika::mcp_oauth::pkce_s256_challenge("dBjftJeZ4CVP-mB92K27uhbUJU1p1r_wW1gFWFOEjXk");
    assert_eq!(challenge, "E9Melhoa2OwvFrEMTJguCHaoeK1t8URWbuGJSstw-cM");
    let token = rika::mcp_oauth::random_token(32);
    assert_eq!(token.len(), 43);
}

#[test]
fn transport_target_refuses_missing_command_or_url() {
    let mut s = http_server("a");
    assert_eq!(rika::tools::transport_target(&s), Ok("https://mcp.linear.app/mcp".to_string()));
    s.url = Some("   ".to_string());
    assert_eq!(rika::tools::transport_target(&s), Err("http transport requires url".to_string()));
    s.transport = McpTransport::Stdio;
    assert_eq!(rika::tools::transport_target(&s), Err("stdio transport requires command".to_string()));
    s.command = Some(" npx server ".to_string());
    assert_eq!(rika::tools::transport_target(&s), Ok("npx server".to_string()));
}

#[test]
fn connect_outcomes_wait_from_two_seconds() {
    assert_eq!(on_connect_outcome(0, true), ConnectStep::Ready);
    assert_eq!(on_connect_outcome(0, false), ConnectStep::Retry { attempt: 1, wait_secs: 2 });
    assert_eq!(on_connect_outcome(3, false), ConnectStep::Retry { attempt: 4, wait_secs: 15 });
    assert_eq!(on_connect_outcome(u32::MAX, false), ConnectStep::Retry { attempt: u32::MAX, wait_secs: 30 });
}

#[test]
fn long_output_is_cut_at_a_character() {
    let tool = ShellTool::with_limits(30, 5);
    let r = tool.command_result("abcdéf", "", true, Some(0));
    assert!(r.success);
    assert_eq!(r.output, "abcd...\n[output truncated, 7 bytes total]");
    let r = tool.command_result("ab", "cd", false, None);
    assert_eq!(r.output, "ab\ncd");
    assert_eq!(r.error, Some("Exit code: -1".to_string()));
}

#[test]
fn system_event_keeps_its_record_through_its_states() {
    let mut h = rika::system_events::SystemEventHandle::create("/ws", "done", "sid", "name");
    let created = h.record().created_at.clone();
    let path = h.path().to_string();
    h.mark_running();
    assert_eq!(h.record().status, rika::system_events::SystemEventStatus::Running);
    h.mark_done();
    assert_eq!(h.record().status, rika::system_events::SystemEventStatus::Done);
    assert_eq!(h.record().created_at, created);
    assert_eq!(h.path(), path);
    assert_eq!(h.record().text, "done");
}

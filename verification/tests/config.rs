use rika::config::{
    resolve_env_placeholders, resolve_home_dir, resolve_path_str, AppConfig, McpAuthMode, McpConfig,
    McpServerConfig, McpTransport, OpenAiConfig, PermissionsConfig, ProcessConfig, ShellConfig,
    WebFetchConfig, WebSearchConfig,
};
use rika::env::Env;

fn env(vars: &[(&str, &str)]) -> Env {
    Env { vars: vars.iter().map(|(k, v)| (k.to_string(), v.to_string())).collect() }
}

fn server(name: &str, transport: McpTransport) -> McpServerConfig {
    McpServerConfig {
        name: name.to_string(),
        enabled: true,
        transport,
        auth_mode: McpAuthMode::Headers,
        command: None,
        args: vec![],
        env: vec![],
        cwd: None,
        url: None,
        headers: vec![],
        oauth_client_id: None,
        oauth_client_secret_env: None,
        oauth_scopes: vec![],
        oauth_authorization_server: None,
        tool_timeout_secs: None,
        init_timeout_secs: None,
    }
}

#[test]
fn openai_resolve_api_key_from_config() {
    let cfg = OpenAiConfig { api_key: Some("test-key".to_string()), env_key: None, base_url: None };
    assert_eq!(cfg.resolve_api_key(&Env::empty()).ok().unwrap(), "test-key");
}

#[test]
fn openai_resolve_api_key_from_env_key() {
    let env_name = "RIKABOT_TEST_OPENAI_API_KEY";
    let cfg = OpenAiConfig { api_key: None, env_key: Some(env_name.to_string()), base_url: None };
    let e = env(&[(env_name, "env-test-key")]);
    assert_eq!(cfg.resolve_api_key(&e).ok().unwrap(), "env-test-key");
}

#[test]
fn openai_resolve_api_key_missing_is_error() {
    let cfg = OpenAiConfig { api_key: None, env_key: None, base_url: None };
    let err = cfg.resolve_api_key(&Env::empty()).err().unwrap();
    assert_eq!(err.message, "openai requires api_key or env_key");
    let cfg = OpenAiConfig { api_key: None, env_key: Some("UNSET_KEY".to_string()), base_url: None };
    let err = cfg.resolve_api_key(&Env::empty()).err().unwrap();
    assert_eq!(err.message, "env var 'UNSET_KEY' not set for openai api_key");
}

#[test]
fn openai_resolve_base_url_uses_default() {
    let cfg = OpenAiConfig { api_key: None, env_key: None, base_url: None };
    assert_eq!(cfg.resolve_base_url().ok().unwrap(), "https://api.openai.com/v1");
}

#[test]
fn openai_resolve_base_url_trims_trailing_slash() {
    let cfg = OpenAiConfig {
        api_key: None,
        env_key: None,
        base_url: Some("https://gateway.example.com/v1/".to_string()),
    };
    assert_eq!(cfg.resolve_base_url().ok().unwrap(), "https://gateway.example.com/v1");
}

#[test]
fn openai_resolve_base_url_rejects_chat_completions_suffix() {
    let cfg = OpenAiConfig {
        api_key: None,
        env_key: None,
        base_url: Some("https://api.openai.com/v1/chat/completions".to_string()),
    };
    let err = cfg.resolve_base_url().err().unwrap().message;
    assert!(err.contains("base URL without '/chat/completions'"));
}

#[test]
fn openai_resolve_base_url_rejects_non_http_scheme() {
    let cfg = OpenAiConfig { api_key: None, env_key: None, base_url: Some("ftp://example.com/v1".to_string()) };
    let err = cfg.resolve_base_url().err().unwrap().message;
    assert_eq!(err, "openai base_url must use http or https");
}

#[test]
fn mcp_default_enabled_and_empty_servers() {
    let cfg = McpConfig::default();
    assert!(cfg.enabled);
    assert!(cfg.servers.is_empty());
}

#[test]
fn resolve_path_str_expands_tilde_prefix() {
    let e = env(&[("HOME", "/home/tester")]);
    let Some(home) = resolve_home_dir(&e) else {
        return;
    };
    let path = resolve_path_str("~/test/path", &e).ok().expect("resolve path");
    assert_eq!(path, format!("{}/test/path", home));
}

#[test]
fn workspace_dir_expands_tilde() {
    let e = env(&[("HOME", "/home/tester")]);
    let Some(home) = resolve_home_dir(&e) else {
        return;
    };
    let workspace = AppConfig::resolve_path(Some("~/.rika/workspace"), &e).ok().expect("resolve workspace");
    assert_eq!(workspace, format!("{}/.rika/workspace", home));
}

#[test]
fn mcp_transport_default_is_stdio() {
    let mut s = server("s", McpTransport::default());
    s.auth_mode = McpAuthMode::default();
    s.command = Some("cmd".to_string());
    assert!(s.transport == McpTransport::Stdio);
}

#[test]
fn mcp_validate_rejects_duplicate_names() {
    let mut a = server("dup", McpTransport::Stdio);
    a.command = Some("echo".to_string());
    let mut b = server("dup", McpTransport::Http);
    b.url = Some("https://example.com/mcp".to_string());
    let cfg = McpConfig { enabled: true, servers: vec![a, b] };
    let err = cfg.validate().err().unwrap().message;
    assert!(err.contains("duplicate MCP server name"));
}

#[test]
fn mcp_validate_rejects_missing_stdio_command() {
    let cfg = McpConfig { enabled: true, servers: vec![server("stdio", McpTransport::Stdio)] };
    let err = cfg.validate().err().unwrap().message;
    assert!(err.contains("requires non-empty command"));
}

#[test]
fn mcp_validate_rejects_missing_http_url() {
    let cfg = McpConfig { enabled: true, servers: vec![server("http", McpTransport::Http)] };
    let err = cfg.validate().err().unwrap().message;
    assert!(err.contains("requires non-empty url"));
}

#[test]
fn mcp_validate_resolves_header_placeholders() {
    let mut s = server("http", McpTransport::Http);
    s.url = Some("https://mcp.linear.app/mcp".to_string());
    s.headers = vec![("Authorization".to_string(), "Bearer ${RIKABOT_TEST_MCP_TOKEN}".to_string())];
    let e = env(&[("RIKABOT_TEST_MCP_TOKEN", "abc123")]);
    let headers = s.resolved_http_headers(&e).ok().unwrap();
    assert_eq!(headers, vec![("Authorization".to_string(), "Bearer abc123".to_string())]);
    let cfg = McpConfig { enabled: true, servers: vec![s] };
    assert!(cfg.validate().is_ok());
}

#[test]
fn mcp_header_resolution_fails_on_missing_env() {
    let mut s = server("http", McpTransport::Http);
    s.url = Some("https://mcp.notion.com/mcp".to_string());
    s.headers = vec![(
        "Authorization".to_string(),
        "Bearer ${RIKABOT_TEST_MCP_MISSING_TOKEN}".to_string(),
    )];
    let err = s.resolved_http_headers(&Env::empty()).err().unwrap().message;
    assert!(err.contains("not set for MCP header"));
}

#[test]
fn mcp_header_resolution_fails_on_invalid_placeholder() {
    let mut s = server("http", McpTransport::Http);
    s.url = Some("https://mcp.notion.com/mcp".to_string());
    s.headers = vec![("Authorization".to_string(), "Bearer ${BAD".to_string())];
    let err = s.resolved_http_headers(&Env::empty()).err().unwrap().message;
    assert!(err.contains("unterminated env placeholder"));
}

#[test]
fn mcp_oauth_mode_requires_http_transport() {
    let mut s = server("oauth_stdio", McpTransport::Stdio);
    s.auth_mode = McpAuthMode::Oauth;
    s.command = Some("echo".to_string());
    let cfg = McpConfig { enabled: true, servers: vec![s] };
    let err = cfg.validate().err().unwrap().message;
    assert!(err.contains("requires http transport"));
}

#[test]
fn mcp_oauth_mode_rejects_authorization_header() {
    let mut s = server("oauth_header", McpTransport::Http);
    s.auth_mode = McpAuthMode::Oauth;
    s.url = Some("https://example.com/mcp".to_string());
    s.headers = vec![("Authorization".to_string(), "Bearer abc".to_string())];
    let cfg = McpConfig { enabled: true, servers: vec![s] };
    let err = cfg.validate().err().unwrap().message;
    assert!(err.contains("must not set Authorization header"));
}

#[test]
fn mcp_oauth_client_secret_resolves_from_env() {
    let env_name = "RIKABOT_TEST_MCP_OAUTH_CLIENT_SECRET";
    let mut s = server("oauth", McpTransport::Http);
    s.auth_mode = McpAuthMode::Oauth;
    s.url = Some("https://example.com/mcp".to_string());
    s.oauth_client_secret_env = Some(env_name.to_string());
    let e = env(&[(env_name, "top-secret")]);
    let resolved = s.resolved_oauth_client_secret(&e).ok().unwrap();
    assert_eq!(resolved.as_deref(), Some("top-secret"));
}

#[test]
fn mcp_tool_timeout_is_capped() {
    let mut s = server("cap", McpTransport::Stdio);
    s.command = Some("echo".to_string());
    s.tool_timeout_secs = Some(9_999);
    assert_eq!(s.resolved_tool_timeout_secs(), 600);
}

#[test]
fn mcp_timeouts_default_when_unset() {
    let mut s = server("t", McpTransport::Stdio);
    assert_eq!(s.resolved_tool_timeout_secs(), 180);
    s.tool_timeout_secs = Some(0);
    assert_eq!(s.resolved_tool_timeout_secs(), 0);
    assert_eq!(s.resolved_init_timeout_secs(), 30);
}

#[test]
fn permissions_defaults_to_enabled_with_empty_tool_rules() {
    let cfg = PermissionsConfig::default();
    assert!(cfg.enabled);
    assert!(cfg.tools.allow.is_empty());
    assert!(cfg.tools.deny.is_empty());
}

#[test]
fn web_configs_default_values_from_minimal_toml() {
    let web_fetch = WebFetchConfig::default();
    assert!(!web_fetch.enabled);
    assert_eq!(web_fetch.timeout_secs, 20);
    assert_eq!(web_fetch.max_response_size, 50_000);
    assert_eq!(web_fetch.user_agent, "rikabot/0.1");

    let web_search = WebSearchConfig::default();
    assert!(!web_search.enabled);
    assert_eq!(web_search.provider, "openrouter");
    assert_eq!(web_search.max_results, 5);
    assert_eq!(web_search.timeout_secs, 15);
    assert_eq!(web_search.user_agent, "rikabot/0.1");
    assert_eq!(web_search.providers.openrouter.model.as_deref(), Some("openai/gpt-4o-mini"));
}

#[test]
fn web_search_provider_kind_checks_name() {
    let mut cfg = WebSearchConfig::default();
    cfg.provider = " OpenRouter ".to_string();
    assert!(cfg.resolved_provider_kind().is_ok());
    cfg.provider = "unknown".to_string();
    let err = cfg.resolved_provider_kind().err().unwrap().message;
    assert!(err.contains("web_search provider"));
    assert!(err.contains("unsupported"));
    cfg.provider = "perplexity".to_string();
    let err = cfg.resolved_provider_kind().err().unwrap().message;
    assert!(err.contains("expected 'openrouter'"));
}

#[test]
fn web_search_resolved_max_results_clamps_to_range() {
    let mut cfg = WebSearchConfig::default();
    cfg.max_results = 0;
    assert_eq!(cfg.resolved_max_results(), 1);
    cfg.max_results = 42;
    assert_eq!(cfg.resolved_max_results(), 10);
}

#[test]
fn shell_and_process_defaults_from_minimal_toml() {
    let shell = ShellConfig::default();
    assert!(shell.enabled);
    assert_eq!(shell.timeout_secs, 30);
    assert_eq!(shell.max_output_bytes, 10_000);

    let process = ProcessConfig::default();
    assert!(process.enabled);
    assert_eq!(process.max_concurrent, 8);
    assert_eq!(process.max_output_bytes, 524_288);
    assert_eq!(process.cleanup_retention_secs, 600);
    assert_eq!(process.kill_grace_secs, 5);
    assert_eq!(process.wait_default_secs, 20);
    assert_eq!(process.wait_max_secs, 25);
    assert_eq!(rika::config::default_max_concurrent_sessions(), 8);
}

#[test]
fn shell_resolved_timeout_is_capped() {
    let cfg = ShellConfig { enabled: true, timeout_secs: 9_999, max_output_bytes: 10_000 };
    assert_eq!(cfg.resolved_timeout_secs(), 3_600);
}

#[test]
fn process_resolved_max_concurrent_is_capped() {
    let cfg = ProcessConfig {
        enabled: true,
        max_concurrent: 9_999,
        max_output_bytes: 524_288,
        cleanup_retention_secs: 600,
        kill_grace_secs: 5,
        wait_default_secs: 20,
        wait_max_secs: 25,
    };
    assert_eq!(cfg.resolved_max_concurrent(), 128);
}

#[test]
fn env_placeholders_are_substituted() {
    let e = env(&[("A", "x"), ("B", "y")]);
    assert_eq!(resolve_env_placeholders("${A}-${B}!", &e).ok().unwrap(), "x-y!");
    assert_eq!(resolve_env_placeholders("plain", &e).ok().unwrap(), "plain");
}

fn minimal_app() -> AppConfig {
    AppConfig {
        host: rika::config::default_host(),
        port: rika::config::default_port(),
        model: rika::config::default_model(),
        max_concurrent_sessions: rika::config::default_max_concurrent_sessions(),
        provider: "openai".to_string(),
        providers: rika::config::ProvidersConfig {
            openai: Some(OpenAiConfig { api_key: Some("x".to_string()), env_key: None, base_url: None }),
            openrouter: None,
        },
        workspace_dir: None,
        skills: rika::config::SkillsConfig::default(),
        prompt: rika::config::PromptConfig::default(),
        permissions: PermissionsConfig::default(),
        shell: ShellConfig::default(),
        process: ProcessConfig::default(),
        web_fetch: WebFetchConfig::default(),
        web_search: WebSearchConfig::default(),
        mcp: McpConfig::default(),
    }
}

#[test]
fn minimal_config_validates() {
    assert!(minimal_app().validate(&Env::empty()).is_ok());
}

#[test]
fn web_search_validate_rejects_unknown_provider() {
    let mut cfg = minimal_app();
    cfg.web_search.enabled = true;
    cfg.web_search.provider = "unknown".to_string();
    let err = cfg.validate(&Env::empty()).err().unwrap().message;
    assert!(err.contains("web_search provider"));
    assert!(err.contains("unsupported"));
}

#[test]
fn web_search_validate_rejects_perplexity_provider() {
    let mut cfg = minimal_app();
    cfg.web_search.enabled = true;
    cfg.web_search.provider = "perplexity".to_string();
    let err = cfg.validate(&Env::empty()).err().unwrap().message;
    assert!(err.contains("expected 'openrouter'"));
}

#[test]
fn web_search_validate_uses_env_key_for_openrouter() {
    let env_name = "RIKABOT_TEST_WEB_SEARCH_OPENROUTER_KEY";
    let mut cfg = minimal_app();
    cfg.web_search.enabled = true;
    cfg.web_search.provider = "openrouter".to_string();
    cfg.web_search.providers.openrouter.env_key = Some(env_name.to_string());
    cfg.web_search.providers.openrouter.model = Some("openai/gpt-4o-mini".to_string());
    assert!(cfg.validate(&env(&[(env_name, "or-key")])).is_ok());
}

#[test]
fn validate_rejects_zero_max_concurrent_sessions() {
    let mut cfg = minimal_app();
    cfg.max_concurrent_sessions = 0;
    let err = cfg.validate(&Env::empty()).err().unwrap().message;
    assert!(err.contains("max_concurrent_sessions"));
}

#[test]
fn validate_rejects_process_wait_default_above_wait_max() {
    let mut cfg = minimal_app();
    cfg.process.wait_default_secs = 30;
    cfg.process.wait_max_secs = 20;
    let err = cfg.validate(&Env::empty()).err().unwrap().message;
    assert!(err.contains("wait_default_secs"));
    assert!(err.contains("less than or equal to wait_max_secs"));
}

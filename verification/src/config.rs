use vstd::prelude::*;

use crate::env::{opt_view, Env};
use crate::text::{
    chars_of, eq_ignore_ascii_case, eq_ignore_case, lower, str_eq, to_lower, trim, trim_end_char,
    trim_end_char_len, trim_str,
};
use crate::urls::{parse_url, url_parse};

verus! {

/// A configuration value that was refused, with the reason.
pub struct ConfigError {
    pub message: String,
}

fn config_error(message: String) -> (r: ConfigError)
    ensures
        r.message == message,
{
    ConfigError { message }
}

/// `a + b + c` as one `String`.
fn concat3(a: &str, b: &str, c: &str) -> (r: String)
    ensures
        r@ == a@ + b@ + c@,
{
    let mut s = String::from_str(a);
    s.append(b);
    s.append(c);
    s
}

pub struct SkillsConfig {
    pub enabled: bool,
}

pub struct PromptConfig {
    pub bootstrap_max_chars: usize,
    pub bootstrap_total_max_chars: usize,
}

/// Allow and deny rules for tool calls.
pub struct ToolPermissionsConfig {
    pub allow: Vec<String>,
    pub deny: Vec<String>,
}

/// Whether tool permissions are enforced, and the rules to enforce.
pub struct PermissionsConfig {
    pub enabled: bool,
    pub tools: ToolPermissionsConfig,
}

pub struct ShellConfig {
    pub enabled: bool,
    pub timeout_secs: u64,
    pub max_output_bytes: usize,
}

pub struct ProcessConfig {
    pub enabled: bool,
    pub max_concurrent: usize,
    pub max_output_bytes: usize,
    pub cleanup_retention_secs: u64,
    pub kill_grace_secs: u64,
    pub wait_default_secs: u64,
    pub wait_max_secs: u64,
}

pub struct WebFetchConfig {
    pub enabled: bool,
    pub timeout_secs: u64,
    pub max_response_size: usize,
    pub user_agent: String,
}

pub struct WebSearchOpenRouterConfig {
    pub api_key: Option<String>,
    pub env_key: Option<String>,
    pub model: Option<String>,
    pub plugin_max_results: Option<usize>,
    pub plugin_search_prompt: Option<String>,
}

pub struct WebSearchProvidersConfig {
    pub openrouter: WebSearchOpenRouterConfig,
}

pub struct WebSearchConfig {
    pub enabled: bool,
    pub provider: String,
    pub max_results: usize,
    pub timeout_secs: u64,
    pub user_agent: String,
    pub providers: WebSearchProvidersConfig,
}

#[derive(PartialEq, Eq, Structural, Clone, Copy)]
pub enum McpTransport {
    Stdio,
    Http,
}

#[derive(PartialEq, Eq, Structural, Clone, Copy)]
pub enum McpAuthMode {
    Headers,
    Oauth,
}

/// One MCP server. `env` and `headers` hold name/value pairs, names unique.
pub struct McpServerConfig {
    pub name: String,
    pub enabled: bool,
    pub transport: McpTransport,
    pub auth_mode: McpAuthMode,
    pub command: Option<String>,
    pub args: Vec<String>,
    pub env: Vec<(String, String)>,
    pub cwd: Option<String>,
    pub url: Option<String>,
    pub headers: Vec<(String, String)>,
    pub oauth_client_id: Option<String>,
    pub oauth_client_secret_env: Option<String>,
    pub oauth_scopes: Vec<String>,
    pub oauth_authorization_server: Option<String>,
    pub tool_timeout_secs: Option<u64>,
    pub init_timeout_secs: Option<u64>,
}

pub struct McpConfig {
    pub enabled: bool,
    pub servers: Vec<McpServerConfig>,
}

pub struct OpenAiConfig {
    pub api_key: Option<String>,
    pub env_key: Option<String>,
    pub base_url: Option<String>,
}

pub struct OpenRouterConfig {
    pub api_key: Option<String>,
    pub env_key: Option<String>,
}

pub struct ProvidersConfig {
    pub openai: Option<OpenAiConfig>,
    pub openrouter: Option<OpenRouterConfig>,
}

#[derive(PartialEq, Eq, Structural, Clone, Copy)]
pub enum WebSearchProviderKind {
    OpenRouter,
}

/// The application configuration. The sampling temperature, a float, is kept
/// by the application beside it.
pub struct AppConfig {
    pub host: String,
    pub port: u16,
    pub model: String,
    pub max_concurrent_sessions: usize,
    pub provider: String,
    pub providers: ProvidersConfig,
    pub workspace_dir: Option<String>,
    pub skills: SkillsConfig,
    pub prompt: PromptConfig,
    pub permissions: PermissionsConfig,
    pub shell: ShellConfig,
    pub process: ProcessConfig,
    pub web_fetch: WebFetchConfig,
    pub web_search: WebSearchConfig,
    pub mcp: McpConfig,
}

// ---------------------------------------------------------------------------
// Defaults
// ---------------------------------------------------------------------------

pub fn default_host() -> (r: String)
    ensures
        r@ == "127.0.0.1"@,
{
    String::from_str("127.0.0.1")
}

#[verifier::allow_in_spec]
pub fn default_port() -> u16
    returns
        4728u16,
{
    4728
}

pub fn default_model() -> (r: String)
    ensures
        r@ == "openai/gpt-5.2"@,
{
    String::from_str("openai/gpt-5.2")
}

#[verifier::allow_in_spec]
pub fn default_max_concurrent_sessions() -> usize
    returns
        8usize,
{
    8
}

#[verifier::allow_in_spec]
pub fn default_skills_enabled() -> bool
    returns
        true,
{
    true
}

#[verifier::allow_in_spec]
pub fn default_bootstrap_max_chars() -> usize
    returns
        20_000usize,
{
    20_000
}

#[verifier::allow_in_spec]
pub fn default_bootstrap_total_max_chars() -> usize
    returns
        150_000usize,
{
    150_000
}

#[verifier::allow_in_spec]
pub fn default_mcp_enabled() -> bool
    returns
        true,
{
    true
}

#[verifier::allow_in_spec]
pub fn default_permissions_enabled() -> bool
    returns
        true,
{
    true
}

#[verifier::allow_in_spec]
pub fn default_shell_enabled() -> bool
    returns
        true,
{
    true
}

#[verifier::allow_in_spec]
pub fn default_shell_timeout_secs() -> u64
    returns
        30u64,
{
    30
}

#[verifier::allow_in_spec]
pub fn max_shell_timeout_secs() -> u64
    returns
        3_600u64,
{
    3_600
}

#[verifier::allow_in_spec]
pub fn default_shell_max_output_bytes() -> usize
    returns
        10_000usize,
{
    10_000
}

#[verifier::allow_in_spec]
pub fn default_process_enabled() -> bool
    returns
        true,
{
    true
}

#[verifier::allow_in_spec]
pub fn default_process_max_concurrent() -> usize
    returns
        8usize,
{
    8
}

#[verifier::allow_in_spec]
pub fn max_process_max_concurrent() -> usize
    returns
        128usize,
{
    128
}

#[verifier::allow_in_spec]
pub fn default_process_max_output_bytes() -> usize
    returns
        524_288usize,
{
    524_288
}

#[verifier::allow_in_spec]
pub fn default_process_cleanup_retention_secs() -> u64
    returns
        600u64,
{
    600
}

#[verifier::allow_in_spec]
pub fn default_process_kill_grace_secs() -> u64
    returns
        5u64,
{
    5
}

#[verifier::allow_in_spec]
pub fn default_process_wait_default_secs() -> u64
    returns
        20u64,
{
    20
}

#[verifier::allow_in_spec]
pub fn default_process_wait_max_secs() -> u64
    returns
        25u64,
{
    25
}

#[verifier::allow_in_spec]
pub fn default_web_fetch_timeout_secs() -> u64
    returns
        20u64,
{
    20
}

#[verifier::allow_in_spec]
pub fn default_web_fetch_max_response_size() -> usize
    returns
        50_000usize,
{
    50_000
}

pub fn default_web_fetch_user_agent() -> (r: String)
    ensures
        r@ == "rikabot/0.1"@,
{
    String::from_str("rikabot/0.1")
}

pub fn default_web_search_provider() -> (r: String)
    ensures
        r@ == "openrouter"@,
{
    String::from_str("openrouter")
}

#[verifier::allow_in_spec]
pub fn default_web_search_max_results() -> usize
    returns
        5usize,
{
    5
}

#[verifier::allow_in_spec]
pub fn default_web_search_timeout_secs() -> u64
    returns
        15u64,
{
    15
}

pub fn default_web_search_user_agent() -> (r: String)
    ensures
        r@ == "rikabot/0.1"@,
{
    String::from_str("rikabot/0.1")
}

#[verifier::allow_in_spec]
pub fn default_mcp_server_enabled() -> bool
    returns
        true,
{
    true
}

#[verifier::allow_in_spec]
pub fn default_mcp_tool_timeout_secs() -> u64
    returns
        180u64,
{
    180
}

#[verifier::allow_in_spec]
pub fn max_mcp_tool_timeout_secs() -> u64
    returns
        600u64,
{
    600
}

#[verifier::allow_in_spec]
pub fn default_mcp_init_timeout_secs() -> u64
    returns
        30u64,
{
    30
}

impl Default for SkillsConfig {
    fn default() -> (r: Self)
        ensures
            r.enabled,
    {
        SkillsConfig { enabled: true }
    }
}

impl Default for PromptConfig {
    fn default() -> (r: Self)
        ensures
            r.bootstrap_max_chars == 20_000,
            r.bootstrap_total_max_chars == 150_000,
    {
        PromptConfig {
            bootstrap_max_chars: default_bootstrap_max_chars(),
            bootstrap_total_max_chars: default_bootstrap_total_max_chars(),
        }
    }
}

impl Default for ToolPermissionsConfig {
    fn default() -> (r: Self)
        ensures
            r.allow@.len() == 0,
            r.deny@.len() == 0,
    {
        ToolPermissionsConfig { allow: Vec::new(), deny: Vec::new() }
    }
}

impl Default for PermissionsConfig {
    fn default() -> (r: Self)
        ensures
            r.enabled,
            r.tools.allow@.len() == 0,
            r.tools.deny@.len() == 0,
    {
        PermissionsConfig {
            enabled: default_permissions_enabled(),
            tools: ToolPermissionsConfig { allow: Vec::new(), deny: Vec::new() },
        }
    }
}

impl Default for ShellConfig {
    fn default() -> (r: Self)
        ensures
            r.enabled,
            r.timeout_secs == 30,
            r.max_output_bytes == 10_000,
    {
        ShellConfig {
            enabled: default_shell_enabled(),
            timeout_secs: default_shell_timeout_secs(),
            max_output_bytes: default_shell_max_output_bytes(),
        }
    }
}

impl Default for ProcessConfig {
    fn default() -> (r: Self)
        ensures
            r.enabled,
            r.max_concurrent == 8,
            r.max_output_bytes == 524_288,
            r.cleanup_retention_secs == 600,
            r.kill_grace_secs == 5,
            r.wait_default_secs == 20,
            r.wait_max_secs == 25,
    {
        ProcessConfig {
            enabled: default_process_enabled(),
            max_concurrent: default_process_max_concurrent(),
            max_output_bytes: default_process_max_output_bytes(),
            cleanup_retention_secs: default_process_cleanup_retention_secs(),
            kill_grace_secs: default_process_kill_grace_secs(),
            wait_default_secs: default_process_wait_default_secs(),
            wait_max_secs: default_process_wait_max_secs(),
        }
    }
}

impl Default for WebFetchConfig {
    fn default() -> (r: Self)
        ensures
            !r.enabled,
            r.timeout_secs == 20,
            r.max_response_size == 50_000,
            r.user_agent@ == "rikabot/0.1"@,
    {
        WebFetchConfig {
            enabled: false,
            timeout_secs: default_web_fetch_timeout_secs(),
            max_response_size: default_web_fetch_max_response_size(),
            user_agent: default_web_fetch_user_agent(),
        }
    }
}

impl Default for WebSearchOpenRouterConfig {
    fn default() -> (r: Self)
        ensures
            r.api_key is None,
            opt_view(r.env_key) == Some("OPENROUTER_API_KEY"@),
            opt_view(r.model) == Some("openai/gpt-4o-mini"@),
            r.plugin_max_results == Some(5usize),
            r.plugin_search_prompt is None,
    {
        WebSearchOpenRouterConfig {
            api_key: None,
            env_key: Some(String::from_str("OPENROUTER_API_KEY")),
            model: Some(String::from_str("openai/gpt-4o-mini")),
            plugin_max_results: Some(5),
            plugin_search_prompt: None,
        }
    }
}

impl Default for WebSearchProvidersConfig {
    fn default() -> (r: Self)
        ensures
            r.openrouter.api_key is None,
            opt_view(r.openrouter.env_key) == Some("OPENROUTER_API_KEY"@),
            opt_view(r.openrouter.model) == Some("openai/gpt-4o-mini"@),
            r.openrouter.plugin_max_results == Some(5usize),
            r.openrouter.plugin_search_prompt is None,
    {
        WebSearchProvidersConfig { openrouter: WebSearchOpenRouterConfig::default() }
    }
}

impl Default for WebSearchConfig {
    fn default() -> (r: Self)
        ensures
            !r.enabled,
            r.provider@ == "openrouter"@,
            r.max_results == 5,
            r.timeout_secs == 15,
            r.user_agent@ == "rikabot/0.1"@,
            opt_view(r.providers.openrouter.model) == Some("openai/gpt-4o-mini"@),
            opt_view(r.providers.openrouter.env_key) == Some("OPENROUTER_API_KEY"@),
            r.providers.openrouter.api_key is None,
            r.providers.openrouter.plugin_max_results == Some(5usize),
            r.providers.openrouter.plugin_search_prompt is None,
    {
        WebSearchConfig {
            enabled: false,
            provider: default_web_search_provider(),
            max_results: default_web_search_max_results(),
            timeout_secs: default_web_search_timeout_secs(),
            user_agent: default_web_search_user_agent(),
            providers: WebSearchProvidersConfig::default(),
        }
    }
}

impl Default for McpConfig {
    fn default() -> (r: Self)
        ensures
            r.enabled,
            r.servers@.len() == 0,
    {
        McpConfig { enabled: default_mcp_enabled(), servers: Vec::new() }
    }
}

impl Default for McpTransport {
    fn default() -> (r: Self)
        ensures
            r == McpTransport::Stdio,
    {
        McpTransport::Stdio
    }
}

impl Default for McpAuthMode {
    fn default() -> (r: Self)
        ensures
            r == McpAuthMode::Headers,
    {
        McpAuthMode::Headers
    }
}

// ---------------------------------------------------------------------------
// Resolution
// ---------------------------------------------------------------------------

pub open spec fn min_u64(a: u64, b: u64) -> u64 {
    if a <= b {
        a
    } else {
        b
    }
}

pub open spec fn clamp_usize(v: usize, lo: usize, hi: usize) -> usize {
    if v < lo {
        lo
    } else if v > hi {
        hi
    } else {
        v
    }
}

/// An optional text, trimmed, when it is present and not blank.
pub open spec fn nonblank(o: Option<String>) -> Option<Seq<char>> {
    match o {
        Some(s) => if trim(s@).len() > 0 {
            Some(trim(s@))
        } else {
            None
        },
        None => None,
    }
}

fn nonblank_of(o: &Option<String>) -> (r: Option<String>)
    ensures
        opt_view(r) == nonblank(*o),
{
    match o {
        Some(s) => {
            let t = trim_str(s.as_str());
            if t.as_str().is_empty() {
                None
            } else {
                Some(t)
            }
        },
        None => None,
    }
}

impl McpServerConfig {
    pub fn resolved_tool_timeout_secs(&self) -> (r: u64)
        ensures
            r == min_u64(
                match self.tool_timeout_secs {
                    Some(v) => v,
                    None => 180,
                },
                600,
            ),
    {
        let v = match self.tool_timeout_secs {
            Some(v) => v,
            None => default_mcp_tool_timeout_secs(),
        };
        if v <= max_mcp_tool_timeout_secs() {
            v
        } else {
            max_mcp_tool_timeout_secs()
        }
    }

    pub fn resolved_init_timeout_secs(&self) -> (r: u64)
        ensures
            r == match self.init_timeout_secs {
                Some(v) => v,
                None => 30,
            },
    {
        match self.init_timeout_secs {
            Some(v) => v,
            None => default_mcp_init_timeout_secs(),
        }
    }
}

impl ShellConfig {
    pub fn resolved_timeout_secs(&self) -> (r: u64)
        ensures
            r == min_u64(self.timeout_secs, 3_600),
    {
        if self.timeout_secs <= max_shell_timeout_secs() {
            self.timeout_secs
        } else {
            max_shell_timeout_secs()
        }
    }
}

impl ProcessConfig {
    pub fn resolved_max_concurrent(&self) -> (r: usize)
        ensures
            r == if self.max_concurrent <= 128 {
                self.max_concurrent
            } else {
                128
            },
    {
        if self.max_concurrent <= max_process_max_concurrent() {
            self.max_concurrent
        } else {
            max_process_max_concurrent()
        }
    }
}

impl WebSearchConfig {
    pub fn resolved_provider_kind(&self) -> (r: Result<WebSearchProviderKind, ConfigError>)
        ensures
            match r {
                Ok(k) => lower(trim(self.provider@)) == "openrouter"@ && k
                    == WebSearchProviderKind::OpenRouter,
                Err(e) => lower(trim(self.provider@)) != "openrouter"@ && e.message@
                    == "web_search provider '"@ + lower(trim(self.provider@))
                    + "' is unsupported; expected 'openrouter'"@,
            },
    {
        let p = to_lower(trim_str(self.provider.as_str()).as_str());
        if str_eq(p.as_str(), "openrouter") {
            Ok(WebSearchProviderKind::OpenRouter)
        } else {
            Err(
                config_error(
                    concat3(
                        "web_search provider '",
                        p.as_str(),
                        "' is unsupported; expected 'openrouter'",
                    ),
                ),
            )
        }
    }

    pub fn resolved_max_results(&self) -> (r: usize)
        ensures
            r == clamp_usize(self.max_results, 1, 10),
    {
        if self.max_results < 1 {
            1
        } else if self.max_results > 10 {
            10
        } else {
            self.max_results
        }
    }
}

impl WebSearchOpenRouterConfig {
    /// The key given directly, or else read from the named variable.
    pub open spec fn resolve_api_key_spec(&self, env: Env) -> Result<Seq<char>, Seq<char>> {
        match nonblank(self.api_key) {
            Some(k) => Ok(k),
            None => match nonblank(self.env_key) {
                Some(name) => match env.lookup(name) {
                    Some(v) => Ok(v),
                    None => Err("env var '"@ + name + "' not set for openrouter api_key"@),
                },
                None => Err("openrouter web_search requires api_key or env_key"@),
            },
        }
    }

    pub fn resolve_api_key(&self, env: &Env) -> (r: Result<String, ConfigError>)
        ensures
            result_view(r) == self.resolve_api_key_spec(*env),
            match nonblank(self.api_key) {
                Some(k) => r matches Ok(v) && v@ == k,
                None => match nonblank(self.env_key) {
                    Some(name) => match env.lookup(name) {
                        Some(v) => r matches Ok(x) && x@ == v,
                        None => r matches Err(e) && e.message@ == "env var '"@ + name
                            + "' not set for openrouter api_key"@,
                    },
                    None => r matches Err(e) && e.message@
                        == "openrouter web_search requires api_key or env_key"@,
                },
            },
    {
        if let Some(k) = nonblank_of(&self.api_key) {
            return Ok(k);
        }
        if let Some(name) = nonblank_of(&self.env_key) {
            return match env.get(name.as_str()) {
                Some(v) => Ok(v),
                None => Err(
                    config_error(
                        concat3("env var '", name.as_str(), "' not set for openrouter api_key"),
                    ),
                ),
            };
        }
        Err(config_error(String::from_str("openrouter web_search requires api_key or env_key")))
    }

    pub fn resolve_model(&self) -> (r: Result<String, ConfigError>)
        ensures
            match nonblank(self.model) {
                Some(m) => r matches Ok(v) && v@ == m,
                None => r matches Err(e) && e.message@
                    == "openrouter web_search model cannot be empty"@,
            },
    {
        match nonblank_of(&self.model) {
            Some(m) => Ok(m),
            None => Err(config_error(String::from_str("openrouter web_search model cannot be empty"))),
        }
    }

    pub fn resolved_plugin_max_results(&self) -> (r: Option<usize>)
        ensures
            r == match self.plugin_max_results {
                Some(v) => Some(clamp_usize(v, 1, 10)),
                None => None::<usize>,
            },
    {
        match self.plugin_max_results {
            Some(v) => Some(
                if v < 1 {
                    1
                } else if v > 10 {
                    10
                } else {
                    v
                },
            ),
            None => None,
        }
    }

    pub fn resolved_plugin_search_prompt(&self) -> (r: Option<String>)
        ensures
            opt_view(r) == nonblank(self.plugin_search_prompt),
    {
        nonblank_of(&self.plugin_search_prompt)
    }
}

/// An API key given directly, or else read from the named variable.
pub open spec fn api_key_spec(
    key: Option<String>,
    env_key: Option<String>,
    env: Env,
    provider: Seq<char>,
) -> Result<Seq<char>, Seq<char>> {
    match key {
        Some(k) => Ok(k@),
        None => match env_key {
            Some(name) => match env.lookup(name@) {
                Some(v) => Ok(v),
                None => Err("env var '"@ + name@ + "' not set for "@ + provider + " api_key"@),
            },
            None => Err(provider + " requires api_key or env_key"@),
        },
    }
}

pub open spec fn result_view(r: Result<String, ConfigError>) -> Result<Seq<char>, Seq<char>> {
    match r {
        Ok(s) => Ok(s@),
        Err(e) => Err(e.message@),
    }
}

fn resolve_key(key: &Option<String>, env_key: &Option<String>, env: &Env, provider: &str) -> (r: Result<
    String,
    ConfigError,
>)
    ensures
        result_view(r) == api_key_spec(*key, *env_key, *env, provider@),
{
    if let Some(k) = key {
        return Ok(k.clone());
    }
    if let Some(name) = env_key {
        return match env.get(name.as_str()) {
            Some(v) => Ok(v),
            None => {
                let mut m = concat3("env var '", name.as_str(), "' not set for ");
                m.append(provider);
                m.append(" api_key");
                Err(config_error(m))
            },
        };
    }
    let mut m = String::from_str(provider);
    m.append(" requires api_key or env_key");
    Err(config_error(m))
}

impl OpenAiConfig {
    pub fn resolve_api_key(&self, env: &Env) -> (r: Result<String, ConfigError>)
        ensures
            result_view(r) == api_key_spec(self.api_key, self.env_key, *env, "openai"@),
    {
        resolve_key(&self.api_key, &self.env_key, env, "openai")
    }

    /// The base URL without trailing slashes; it must be an http(s) URL and
    /// must not already name the chat completions endpoint.
    pub fn resolve_base_url(&self) -> (r: Result<String, ConfigError>)
        ensures
            result_view(r) == base_url_spec(self.base_url),
    {
        let raw = match nonblank_of(&self.base_url) {
            Some(v) => v,
            None => String::from_str("https://api.openai.com/v1"),
        };
        let parts = match parse_url(raw.as_str()) {
            Ok(p) => p,
            Err(_) => {
                return Err(config_error(String::from_str("openai base_url must be a valid URL")));
            },
        };
        if !is_http_scheme(parts.scheme.as_str()) {
            return Err(config_error(String::from_str("openai base_url must use http or https")));
        }
        let path = chars_of(parts.path.as_str());
        let pe = trim_end_char_len(path.as_slice(), path.len(), '/');
        let suffix = chars_of("/chat/completions");
        let trimmed_path = crate::text::slice_vec(path.as_slice(), 0, pe);
        proof {
            assert(path@.subrange(0, pe as int) == path@.take(pe as int));
            assert(path@.take(path.len() as int) == path@);
        }
        if crate::text::ends_with(trimmed_path.as_slice(), suffix.as_slice()) {
            return Err(
                config_error(
                    String::from_str(
                        "openai base_url must be a base URL without '/chat/completions' suffix",
                    ),
                ),
            );
        }
        let rv = chars_of(raw.as_str());
        let re = trim_end_char_len(rv.as_slice(), rv.len(), '/');
        proof {
            assert(rv@.subrange(0, re as int) == rv@.take(re as int));
            assert(rv@.take(rv.len() as int) == rv@);
            assert(path@.take(path.len() as int) == path@);
        }
        Ok(crate::text::string_from_range(rv.as_slice(), 0, re))
    }
}

impl OpenRouterConfig {
    pub fn resolve_api_key(&self, env: &Env) -> (r: Result<String, ConfigError>)
        ensures
            result_view(r) == api_key_spec(self.api_key, self.env_key, *env, "openrouter"@),
    {
        resolve_key(&self.api_key, &self.env_key, env, "openrouter")
    }
}

pub open spec fn http_scheme(s: Seq<char>) -> bool {
    s == "http"@ || s == "https"@
}

fn is_http_scheme(s: &str) -> (r: bool)
    ensures
        r == http_scheme(s@),
{
    str_eq(s, "http") || str_eq(s, "https")
}

/// What `OpenAiConfig::resolve_base_url` yields for a configured base URL.
pub open spec fn base_url_spec(base_url: Option<String>) -> Result<Seq<char>, Seq<char>> {
    let raw = match nonblank(base_url) {
        Some(v) => v,
        None => "https://api.openai.com/v1"@,
    };
    match url_parse(raw) {
        Err(_) => Err("openai base_url must be a valid URL"@),
        Ok((scheme, _host, _port, path, _query)) => if !http_scheme(scheme) {
            Err("openai base_url must use http or https"@)
        } else if "/chat/completions"@.is_suffix_of(trim_end_char(path, '/')) {
            Err("openai base_url must be a base URL without '/chat/completions' suffix"@)
        } else {
            Ok(trim_end_char(raw, '/'))
        },
    }
}

// ---------------------------------------------------------------------------
// Header values with `${NAME}` placeholders
// ---------------------------------------------------------------------------

pub open spec fn ident_start(c: char) -> bool {
    ('a' <= c && c <= 'z') || ('A' <= c && c <= 'Z') || c == '_'
}

pub open spec fn ident_char(c: char) -> bool {
    ident_start(c) || ('0' <= c && c <= '9')
}

/// The end of the run of identifier characters starting at `k`.
pub open spec fn ident_run_end(s: Seq<char>, k: int) -> int
    decreases s.len() - k,
{
    if 0 <= k < s.len() && ident_char(s[k]) {
        ident_run_end(s, k + 1)
    } else {
        k
    }
}

proof fn lemma_ident_run_end(s: Seq<char>, k: int)
    requires
        0 <= k,
    ensures
        k <= ident_run_end(s, k),
        ident_run_end(s, k) <= s.len() || ident_run_end(s, k) == k,
        forall|m: int| k <= m < ident_run_end(s, k) ==> ident_char(#[trigger] s[m]),
    decreases s.len() - k,
{
    if 0 <= k < s.len() && ident_char(s[k]) {
        lemma_ident_run_end(s, k + 1);
    }
}

/// Where a `${NAME}` placeholder that starts at `i` ends (one past `}`).
pub open spec fn placeholder_end(s: Seq<char>, i: int) -> Option<int> {
    if 0 <= i && i + 2 < s.len() && s[i] == '$' && s[i + 1] == '{' && ident_start(s[i + 2]) {
        let j = ident_run_end(s, i + 2);
        if j < s.len() && s[j] == '}' {
            Some(j + 1)
        } else {
            None
        }
    } else {
        None
    }
}

proof fn lemma_placeholder_end(s: Seq<char>, i: int)
    ensures
        placeholder_end(s, i) matches Some(e) ==> i + 3 < e + 1 && e <= s.len(),
{
    if 0 <= i && i + 2 < s.len() {
        lemma_ident_run_end(s, i + 2);
    }
}

/// `s[i..]` with every placeholder replaced by its variable's value, scanning
/// left to right; the name of the first unset variable is the error.
pub open spec fn substitute(s: Seq<char>, i: int, env: Env) -> Result<Seq<char>, Seq<char>>
    decreases s.len() - i,
{
    if i < 0 || i >= s.len() {
        Ok(Seq::empty())
    } else {
        match placeholder_end(s, i) {
            Some(e) => {
                if e <= i {
                    Ok(Seq::empty())
                } else {
                    let name = s.subrange(i + 2, e - 1);
                    match env.lookup(name) {
                        None => Err(name),
                        Some(v) => match substitute(s, e, env) {
                            Ok(r) => Ok(v + r),
                            Err(n) => Err(n),
                        },
                    }
                }
            },
            None => match substitute(s, i + 1, env) {
                Ok(r) => Ok(seq![s[i]] + r),
                Err(n) => Err(n),
            },
        }
    }
}

pub open spec fn prepend(p: Seq<char>, r: Result<Seq<char>, Seq<char>>) -> Result<Seq<char>, Seq<char>> {
    match r {
        Ok(x) => Ok(p + x),
        Err(n) => Err(n),
    }
}

/// What resolving the placeholders of a header value yields.
pub open spec fn placeholders_spec(s: Seq<char>, env: Env) -> Result<Seq<char>, Seq<char>> {
    if crate::text::contains_seq(s, "${"@) && !s.contains('}') {
        Err("unterminated env placeholder in header value"@)
    } else {
        match substitute(s, 0, env) {
            Err(name) => Err("env var '"@ + name + "' not set for MCP header"@),
            Ok(out) => if crate::text::contains_seq(out, "${"@) {
                Err("invalid env placeholder format in header value"@)
            } else {
                Ok(out)
            },
        }
    }
}

fn is_ident_char(d: char) -> (r: bool)
    ensures
        r == ident_char(d),
{
    ('a' <= d && d <= 'z') || ('A' <= d && d <= 'Z') || d == '_' || ('0' <= d && d <= '9')
}

fn placeholder_at(v: &[char], i: usize) -> (r: Option<usize>)
    requires
        i < v@.len(),
    ensures
        match r {
            Some(e) => placeholder_end(v@, i as int) == Some(e as int),
            None => placeholder_end(v@, i as int) is None,
        },
{
    if v.len() - i <= 2 || v[i] != '$' || v[i + 1] != '{' {
        return None;
    }
    let c = v[i + 2];
    if !(('a' <= c && c <= 'z') || ('A' <= c && c <= 'Z') || c == '_') {
        return None;
    }
    let mut j = i + 2;
    while j < v.len() && is_ident_char(v[j])
        invariant
            i + 2 <= j <= v.len(),
            ident_run_end(v@, i + 2) == ident_run_end(v@, j as int),
        decreases v.len() - j,
    {
        j = j + 1;
    }
    if j < v.len() && v[j] == '}' {
        Some(j + 1)
    } else {
        None
    }
}

/// Replaces `${NAME}` placeholders in a header value by the named variables.
pub fn resolve_env_placeholders(input: &str, env: &Env) -> (r: Result<String, ConfigError>)
    ensures
        result_view(r) == placeholders_spec(input@, *env),
{
    let v = chars_of(input);
    let open_pat = chars_of("${");
    if crate::text::contains(v.as_slice(), open_pat.as_slice()) && !crate::text::has_char(v.as_slice(), '}') {
        return Err(config_error(String::from_str("unterminated env placeholder in header value")));
    }
    let mut out = String::new();
    let mut i: usize = 0;
    while i < v.len()
        invariant
            i <= v.len(),
            v@ == input@,
            substitute(input@, 0, *env) == prepend(out@, substitute(input@, i as int, *env)),
        decreases v.len() - i,
    {
        proof {
            lemma_placeholder_end(v@, i as int);
        }
        match placeholder_at(v.as_slice(), i) {
            Some(e) => {
                let name = crate::text::string_from_range(v.as_slice(), i + 2, e - 1);
                match env.get(name.as_str()) {
                    None => {
                        return Err(
                            config_error(
                                concat3("env var '", name.as_str(), "' not set for MCP header"),
                            ),
                        );
                    },
                    Some(val) => {
                        let ghost before = out@;
                        out.append(val.as_str());
                        proof {
                            match substitute(input@, e as int, *env) {
                                Ok(rest) => {
                                    assert(before + (val@ + rest) == out@ + rest);
                                },
                                Err(_) => {},
                            }
                        }
                        i = e;
                    },
                }
            },
            None => {
                let ghost before = out@;
                out.push(v[i]);
                proof {
                    match substitute(input@, i + 1, *env) {
                        Ok(rest) => {
                            assert(before + (seq![v@[i as int]] + rest) == out@ + rest);
                        },
                        Err(_) => {},
                    }
                }
                i = i + 1;
            },
        }
    }
    proof {
        assert(out@ + Seq::<char>::empty() == out@);
    }
    let ov = chars_of(out.as_str());
    if crate::text::contains(ov.as_slice(), open_pat.as_slice()) {
        return Err(config_error(String::from_str("invalid env placeholder format in header value")));
    }
    Ok(out)
}

pub open spec fn headers_view(h: Seq<(String, String)>) -> Seq<(Seq<char>, Seq<char>)> {
    h.map_values(|p: (String, String)| (p.0@, p.1@))
}

/// Every header value with its placeholders resolved; the first failing value's error.
pub open spec fn headers_spec(h: Seq<(String, String)>, env: Env) -> Result<
    Seq<(Seq<char>, Seq<char>)>,
    Seq<char>,
>
    decreases h.len(),
{
    if h.len() == 0 {
        Ok(Seq::empty())
    } else {
        match headers_spec(h.drop_last(), env) {
            Err(e) => Err(e),
            Ok(acc) => match placeholders_spec(h.last().1@, env) {
                Err(e) => Err(e),
                Ok(v) => Ok(acc.push((h.last().0@, v))),
            },
        }
    }
}

proof fn lemma_headers_err(h: Seq<(String, String)>, n: int, env: Env)
    requires
        0 <= n <= h.len(),
        headers_spec(h.take(n), env) is Err,
    ensures
        headers_spec(h, env) == headers_spec(h.take(n), env),
    decreases h.len() - n,
{
    if n < h.len() {
        let t = h.take(n + 1);
        assert(t.drop_last() == h.take(n));
        lemma_headers_err(h, n + 1, env);
    } else {
        assert(h.take(n) == h);
    }
}

impl McpServerConfig {
    /// The configured headers with `${NAME}` placeholders resolved from `env`.
    pub fn resolved_http_headers(&self, env: &Env) -> (r: Result<Vec<(String, String)>, ConfigError>)
        ensures
            match r {
                Ok(v) => headers_spec(self.headers@, *env) == Ok::<_, Seq<char>>(headers_view(v@)),
                Err(e) => headers_spec(self.headers@, *env) == Err::<Seq<(Seq<char>, Seq<char>)>, _>(
                    e.message@,
                ),
            },
    {
        let mut out: Vec<(String, String)> = Vec::new();
        let mut i: usize = 0;
        proof {
            assert(self.headers@.take(0).len() == 0);
            assert(headers_view(out@) =~= Seq::<(Seq<char>, Seq<char>)>::empty());
        }
        while i < self.headers.len()
            invariant
                i <= self.headers.len(),
                headers_spec(self.headers@.take(i as int), *env) == Ok::<_, Seq<char>>(
                    headers_view(out@),
                ),
            decreases self.headers.len() - i,
        {
            proof {
                let t = self.headers@.take(i + 1);
                assert(t.drop_last() == self.headers@.take(i as int));
                assert(t.last() == self.headers@[i as int]);
            }
            match resolve_env_placeholders(self.headers[i].1.as_str(), env) {
                Err(e) => {
                    proof {
                        lemma_headers_err(self.headers@, i + 1, *env);
                    }
                    return Err(e);
                },
                Ok(val) => {
                    let ghost before = headers_view(out@);
                    let key = self.headers[i].0.clone();
                    let ghost kv = key@;
                    let ghost vv = val@;
                    out.push((key, val));
                    proof {
                        assert(headers_view(out@) =~= before.push((kv, vv)));
                    }
                },
            }
            i = i + 1;
        }
        proof {
            assert(self.headers@.take(self.headers.len() as int) == self.headers@);
        }
        Ok(out)
    }

    /// The OAuth client secret, or the error message: read from the
    /// variable that `oauth_client_secret_env` names, when it names one.
    pub open spec fn oauth_secret(&self, env: Env) -> Result<Option<Seq<char>>, Seq<char>> {
        match self.oauth_client_secret_env {
            None => Ok(None),
            Some(name) => if trim(name@).len() == 0 {
                Err("oauth_client_secret_env cannot be empty"@)
            } else {
                match env.lookup(trim(name@)) {
                    Some(v) => Ok(Some(v)),
                    None => Err(
                        "env var '"@ + trim(name@) + "' not set for MCP OAuth client secret"@,
                    ),
                }
            },
        }
    }

    /// The OAuth client secret, read from the variable that
    /// `oauth_client_secret_env` names.
    pub fn resolved_oauth_client_secret(&self, env: &Env) -> (r: Result<Option<String>, ConfigError>)
        ensures
            match self.oauth_secret(*env) {
                Ok(v) => r matches Ok(x) && opt_view(x) == v,
                Err(m) => r matches Err(e) && e.message@ == m,
            },
    {
        let name = match &self.oauth_client_secret_env {
            None => {
                return Ok(None);
            },
            Some(n) => trim_str(n.as_str()),
        };
        if name.as_str().is_empty() {
            return Err(config_error(String::from_str("oauth_client_secret_env cannot be empty")));
        }
        match env.get(name.as_str()) {
            Some(v) => Ok(Some(v)),
            None => Err(
                config_error(
                    concat3("env var '", name.as_str(), "' not set for MCP OAuth client secret"),
                ),
            ),
        }
    }
}

// ---------------------------------------------------------------------------
// Validation
// ---------------------------------------------------------------------------

/// The scheme of a parsed URL text.
pub open spec fn parsed_scheme(text: Seq<char>) -> Seq<char> {
    match url_parse(text) {
        Ok((scheme, _h, _p, _path, _q)) => scheme,
        Err(_) => Seq::empty(),
    }
}

/// `"MCP server '" + name + rest`.
pub open spec fn server_msg(name: Seq<char>, rest: Seq<char>) -> Seq<char> {
    "MCP server '"@ + name + rest
}

pub open spec fn opt_trimmed(o: Option<String>) -> Seq<char> {
    match o {
        Some(s) => trim(s@),
        None => Seq::empty(),
    }
}

pub open spec fn has_authorization_header(h: Seq<(String, String)>) -> bool {
    exists|k: int| 0 <= k < h.len() && eq_ignore_case(#[trigger] h[k].0@, "authorization"@)
}

/// The first problem with one server's settings, apart from its name's uniqueness.
pub open spec fn server_problem(s: McpServerConfig) -> Option<Seq<char>> {
    let n = s.name@;
    if trim(n).len() == 0 {
        Some("MCP server name cannot be empty"@)
    } else if s.transport == McpTransport::Stdio && opt_trimmed(s.command).len() == 0 {
        Some(server_msg(n, "' with stdio transport requires non-empty command"@))
    } else if s.transport == McpTransport::Http && opt_trimmed(s.url).len() == 0 {
        Some(server_msg(n, "' with http transport requires non-empty url"@))
    } else if s.transport == McpTransport::Http && url_parse(opt_trimmed(s.url)) is Err {
        Some(server_msg(n, "' has invalid url"@))
    } else if s.transport == McpTransport::Http && !http_scheme(parsed_scheme(opt_trimmed(s.url))) {
        Some(server_msg(n, "' url must use http or https"@))
    } else if s.auth_mode == McpAuthMode::Oauth && s.transport != McpTransport::Http {
        Some(server_msg(n, "' with oauth auth_mode requires http transport"@))
    } else if s.auth_mode == McpAuthMode::Oauth && has_authorization_header(s.headers@) {
        Some(server_msg(n, "' with oauth auth_mode must not set Authorization header"@))
    } else if s.auth_mode == McpAuthMode::Oauth && s.oauth_authorization_server is Some {
        let v = opt_trimmed(s.oauth_authorization_server);
        if v.len() == 0 {
            Some(server_msg(n, "' oauth_authorization_server cannot be empty"@))
        } else if url_parse(v) is Err {
            Some(server_msg(n, "' has invalid oauth_authorization_server url"@))
        } else if !http_scheme(parsed_scheme(v)) {
            Some(server_msg(n, "' oauth_authorization_server must use http or https"@))
        } else {
            None
        }
    } else {
        None
    }
}

/// The first problem in a server list, servers checked in order; a name
/// already used by an earlier server is a problem before anything else.
pub open spec fn servers_problem(servers: Seq<McpServerConfig>) -> Option<Seq<char>>
    decreases servers.len(),
{
    if servers.len() == 0 {
        None
    } else {
        match servers_problem(servers.drop_last()) {
            Some(e) => Some(e),
            None => {
                let s = servers.last();
                if exists|j: int| 0 <= j < servers.len() - 1 && (#[trigger] servers[j]).name@ == s.name@ {
                    Some("duplicate MCP server name '"@ + s.name@ + "'"@)
                } else {
                    server_problem(s)
                }
            },
        }
    }
}

fn opt_trim_of(o: &Option<String>) -> (r: String)
    ensures
        r@ == opt_trimmed(*o),
{
    match o {
        Some(s) => trim_str(s.as_str()),
        None => String::new(),
    }
}

fn has_auth_header(h: &Vec<(String, String)>) -> (r: bool)
    ensures
        r == has_authorization_header(h@),
{
    let mut k: usize = 0;
    while k < h.len()
        invariant
            k <= h.len(),
            forall|j: int| 0 <= j < k ==> !eq_ignore_case(#[trigger] h@[j].0@, "authorization"@),
        decreases h.len() - k,
    {
        if eq_ignore_ascii_case(h[k].0.as_str(), "authorization") {
            return true;
        }
        k = k + 1;
    }
    false
}

fn server_msg_of(name: &String, rest: &str) -> (r: ConfigError)
    ensures
        r.message@ == server_msg(name@, rest@),
{
    config_error(concat3("MCP server '", name.as_str(), rest))
}

fn check_server(s: &McpServerConfig) -> (r: Option<ConfigError>)
    ensures
        match r {
            Some(e) => server_problem(*s) == Some(e.message@),
            None => server_problem(*s) is None,
        },
{
    let name_t = trim_str(s.name.as_str());
    if name_t.as_str().is_empty() {
        return Some(config_error(String::from_str("MCP server name cannot be empty")));
    }
    match s.transport {
        McpTransport::Stdio => {
            let cmd = opt_trim_of(&s.command);
            if cmd.as_str().is_empty() {
                return Some(server_msg_of(&s.name, "' with stdio transport requires non-empty command"));
            }
        },
        McpTransport::Http => {
            let url = opt_trim_of(&s.url);
            if url.as_str().is_empty() {
                return Some(server_msg_of(&s.name, "' with http transport requires non-empty url"));
            }
            match parse_url(url.as_str()) {
                Err(_) => {
                    return Some(server_msg_of(&s.name, "' has invalid url"));
                },
                Ok(p) => {
                    if !is_http_scheme(p.scheme.as_str()) {
                        return Some(server_msg_of(&s.name, "' url must use http or https"));
                    }
                },
            }
        },
    }
    match s.auth_mode {
        McpAuthMode::Headers => None,
        McpAuthMode::Oauth => {
            if s.transport != McpTransport::Http {
                return Some(server_msg_of(&s.name, "' with oauth auth_mode requires http transport"));
            }
            if has_auth_header(&s.headers) {
                return Some(
                    server_msg_of(&s.name, "' with oauth auth_mode must not set Authorization header"),
                );
            }
            match &s.oauth_authorization_server {
                None => None,
                Some(raw) => {
                    let v = trim_str(raw.as_str());
                    if v.as_str().is_empty() {
                        return Some(server_msg_of(&s.name, "' oauth_authorization_server cannot be empty"));
                    }
                    match parse_url(v.as_str()) {
                        Err(_) => Some(
                            server_msg_of(&s.name, "' has invalid oauth_authorization_server url"),
                        ),
                        Ok(p) => if !is_http_scheme(p.scheme.as_str()) {
                            Some(
                                server_msg_of(
                                    &s.name,
                                    "' oauth_authorization_server must use http or https",
                                ),
                            )
                        } else {
                            None
                        },
                    }
                },
            }
        },
    }
}

proof fn lemma_servers_problem_prefix(servers: Seq<McpServerConfig>, n: int)
    requires
        0 <= n <= servers.len(),
        servers_problem(servers.take(n)) is Some,
    ensures
        servers_problem(servers) == servers_problem(servers.take(n)),
    decreases servers.len() - n,
{
    if n < servers.len() {
        let t = servers.take(n + 1);
        assert(t.drop_last() == servers.take(n));
        lemma_servers_problem_prefix(servers, n + 1);
    } else {
        assert(servers.take(n) == servers);
    }
}

impl McpConfig {
    /// Checks server names are unique and each server's transport and auth settings.
    pub fn validate(&self) -> (r: Result<(), ConfigError>)
        ensures
            match r {
                Ok(()) => servers_problem(self.servers@) is None,
                Err(e) => servers_problem(self.servers@) == Some(e.message@),
            },
    {
        let mut i: usize = 0;
        while i < self.servers.len()
            invariant
                i <= self.servers.len(),
                servers_problem(self.servers@.take(i as int)) is None,
            decreases self.servers.len() - i,
        {
            let ghost t = self.servers@.take(i + 1);
            proof {
                assert(t.drop_last() == self.servers@.take(i as int));
                assert(t.last() == self.servers@[i as int]);
            }
            let mut j: usize = 0;
            while j < i
                invariant
                    j <= i < self.servers.len(),
                    t == self.servers@.take(i + 1),
                    t.drop_last() == self.servers@.take(i as int),
                    t.last() == self.servers@[i as int],
                    servers_problem(self.servers@.take(i as int)) is None,
                    forall|k: int| 0 <= k < j ==> self.servers@[k].name@ != self.servers@[i as int].name@,
                decreases i - j,
            {
                if str_eq(self.servers[j].name.as_str(), self.servers[i].name.as_str()) {
                    proof {
                        assert(t[j as int] == self.servers@[j as int]);
                        assert((t[j as int]).name@ == t.last().name@);
                        assert(servers_problem(t) == Some(
                            "duplicate MCP server name '"@ + self.servers@[i as int].name@ + "'"@,
                        ));
                        lemma_servers_problem_prefix(self.servers@, i + 1);
                    }
                    let m = concat3("duplicate MCP server name '", self.servers[i].name.as_str(), "'");
                    return Err(config_error(m));
                }
                j = j + 1;
            }
            proof {
                assert forall|k: int| 0 <= k < t.len() - 1 implies (#[trigger] t[k]).name@ != t.last().name@ by {
                    assert(t[k] == self.servers@[k]);
                }
            }
            match check_server(&self.servers[i]) {
                Some(e) => {
                    proof {
                        lemma_servers_problem_prefix(self.servers@, i + 1);
                    }
                    return Err(e);
                },
                None => {},
            }
            i = i + 1;
        }
        proof {
            assert(self.servers@.take(self.servers.len() as int) == self.servers@);
        }
        Ok(())
    }
}

/// The first problem with the application settings, checked in order.
pub open spec fn app_problem(c: AppConfig, env: Env) -> Option<Seq<char>> {
    if c.max_concurrent_sessions == 0 {
        Some("max_concurrent_sessions must be greater than 0"@)
    } else if c.shell.timeout_secs == 0 {
        Some("shell timeout_secs must be greater than 0"@)
    } else if c.shell.max_output_bytes == 0 {
        Some("shell max_output_bytes must be greater than 0"@)
    } else if c.process.max_concurrent == 0 {
        Some("process max_concurrent must be greater than 0"@)
    } else if c.process.max_output_bytes == 0 {
        Some("process max_output_bytes must be greater than 0"@)
    } else if c.process.cleanup_retention_secs == 0 {
        Some("process cleanup_retention_secs must be greater than 0"@)
    } else if c.process.kill_grace_secs == 0 {
        Some("process kill_grace_secs must be greater than 0"@)
    } else if c.process.wait_default_secs == 0 {
        Some("process wait_default_secs must be greater than 0"@)
    } else if c.process.wait_max_secs == 0 {
        Some("process wait_max_secs must be greater than 0"@)
    } else if c.process.wait_default_secs > c.process.wait_max_secs {
        Some("process wait_default_secs must be less than or equal to wait_max_secs"@)
    } else if c.web_fetch.timeout_secs == 0 {
        Some("web_fetch timeout_secs must be greater than 0"@)
    } else if c.web_fetch.max_response_size == 0 {
        Some("web_fetch max_response_size must be greater than 0"@)
    } else if c.web_search.timeout_secs == 0 {
        Some("web_search timeout_secs must be greater than 0"@)
    } else if lower(trim(c.web_search.provider@)) != "openrouter"@ {
        Some(
            "web_search provider '"@ + lower(trim(c.web_search.provider@))
                + "' is unsupported; expected 'openrouter'"@,
        )
    } else if c.web_search.enabled {
        let or = c.web_search.providers.openrouter;
        match nonblank(or.api_key) {
            Some(_) => if nonblank(or.model) is None {
                Some("openrouter web_search model cannot be empty"@)
            } else {
                None
            },
            None => match nonblank(or.env_key) {
                Some(name) => match env.lookup(name) {
                    Some(_) => if nonblank(or.model) is None {
                        Some("openrouter web_search model cannot be empty"@)
                    } else {
                        None
                    },
                    None => Some("env var '"@ + name + "' not set for openrouter api_key"@),
                },
                None => Some("openrouter web_search requires api_key or env_key"@),
            },
        }
    } else {
        None
    }
}

fn err_msg(m: &str) -> (r: Result<(), ConfigError>)
    ensures
        r matches Err(e) && e.message@ == m@,
{
    Err(config_error(String::from_str(m)))
}

impl AppConfig {
    /// Checks limits are positive and consistent, and that web search can
    /// find its provider, key and model; keys named by variables are read from `env`.
    pub fn validate(&self, env: &Env) -> (r: Result<(), ConfigError>)
        ensures
            match r {
                Ok(()) => app_problem(*self, *env) is None,
                Err(e) => app_problem(*self, *env) == Some(e.message@),
            },
    {
        if self.max_concurrent_sessions == 0 {
            return err_msg("max_concurrent_sessions must be greater than 0");
        }
        if self.shell.timeout_secs == 0 {
            return err_msg("shell timeout_secs must be greater than 0");
        }
        if self.shell.max_output_bytes == 0 {
            return err_msg("shell max_output_bytes must be greater than 0");
        }
        if self.process.max_concurrent == 0 {
            return err_msg("process max_concurrent must be greater than 0");
        }
        if self.process.max_output_bytes == 0 {
            return err_msg("process max_output_bytes must be greater than 0");
        }
        if self.process.cleanup_retention_secs == 0 {
            return err_msg("process cleanup_retention_secs must be greater than 0");
        }
        if self.process.kill_grace_secs == 0 {
            return err_msg("process kill_grace_secs must be greater than 0");
        }
        if self.process.wait_default_secs == 0 {
            return err_msg("process wait_default_secs must be greater than 0");
        }
        if self.process.wait_max_secs == 0 {
            return err_msg("process wait_max_secs must be greater than 0");
        }
        if self.process.wait_default_secs > self.process.wait_max_secs {
            return err_msg("process wait_default_secs must be less than or equal to wait_max_secs");
        }
        if self.web_fetch.timeout_secs == 0 {
            return err_msg("web_fetch timeout_secs must be greater than 0");
        }
        if self.web_fetch.max_response_size == 0 {
            return err_msg("web_fetch max_response_size must be greater than 0");
        }
        if self.web_search.timeout_secs == 0 {
            return err_msg("web_search timeout_secs must be greater than 0");
        }
        if let Err(e) = self.web_search.resolved_provider_kind() {
            return Err(e);
        }
        if self.web_search.enabled {
            if let Err(e) = self.web_search.providers.openrouter.resolve_api_key(env) {
                return Err(e);
            }
            if let Err(e) = self.web_search.providers.openrouter.resolve_model() {
                return Err(e);
            }
        }
        Ok(())
    }

    pub fn resolved_max_concurrent_sessions(&self) -> (r: usize)
        ensures
            r == self.max_concurrent_sessions,
    {
        self.max_concurrent_sessions
    }

    /// The configuration file's path: the one given, else `RIKA_CONFIG`, else
    /// `~/.rika/config.toml`.
    pub fn resolve_path(path: Option<&str>, env: &Env) -> (r: Result<String, ConfigError>)
        ensures
            result_view(r) == match path {
                Some(raw) => path_str_spec(raw@, *env),
                None => match env.lookup("RIKA_CONFIG"@) {
                    Some(raw) => path_str_spec(raw, *env),
                    None => match home_dir(*env) {
                        Some(h) => Ok(path_join(path_join(h, ".rika"@), "config.toml"@)),
                        None => Err("could not resolve home directory for default config path"@),
                    },
                },
            },
    {
        if let Some(raw) = path {
            return resolve_path_str(raw, env);
        }
        if let Some(raw) = env.get("RIKA_CONFIG") {
            return resolve_path_str(raw.as_str(), env);
        }
        match resolve_home_dir(env) {
            Some(h) => {
                let a = join_path(h.as_str(), ".rika");
                Ok(join_path(a.as_str(), "config.toml"))
            },
            None => Err(
                config_error(
                    String::from_str("could not resolve home directory for default config path"),
                ),
            ),
        }
    }

    /// The workspace directory: the configured one, else `~/.rika/workspace`.
    pub fn resolve_workspace_dir(&self, env: &Env) -> (r: Result<String, ConfigError>)
        ensures
            result_view(r) == match self.workspace_dir {
                Some(raw) => path_str_spec(raw@, *env),
                None => match home_dir(*env) {
                    Some(h) => Ok(path_join(path_join(h, ".rika"@), "workspace"@)),
                    None => Err("workspace_dir could not be resolved from config or HOME"@),
                },
            },
    {
        if let Some(raw) = &self.workspace_dir {
            return resolve_path_str(raw.as_str(), env);
        }
        match resolve_home_dir(env) {
            Some(h) => {
                let a = join_path(h.as_str(), ".rika");
                Ok(join_path(a.as_str(), "workspace"))
            },
            None => Err(
                config_error(String::from_str("workspace_dir could not be resolved from config or HOME")),
            ),
        }
    }
}

/// `base` joined with `p` as `Path::join` does on Unix: an absolute `p`
/// replaces `base`; otherwise a `/` separates them unless `base` is empty or
/// already ends with one.
pub open spec fn path_join(base: Seq<char>, p: Seq<char>) -> Seq<char> {
    if p.len() > 0 && p[0] == '/' {
        p
    } else if base.len() == 0 || base.last() == '/' {
        base + p
    } else {
        base + seq!['/'] + p
    }
}

pub fn join_path(base: &str, p: &str) -> (r: String)
    ensures
        r@ == path_join(base@, p@),
{
    let pv = chars_of(p);
    if pv.len() > 0 && pv[0] == '/' {
        return String::from_str(p);
    }
    let bv = chars_of(base);
    let mut out = String::from_str(base);
    if !(bv.len() == 0 || bv[bv.len() - 1] == '/') {
        out.push('/');
    }
    out.append(p);
    proof {
        assert(seq!['/'] =~= Seq::<char>::empty().push('/'));
    }
    out
}

/// The home directory: `HOME`, else `USERPROFILE`, else `HOMEDRIVE` joined with `HOMEPATH`.
pub open spec fn home_dir(env: Env) -> Option<Seq<char>> {
    match env.lookup("HOME"@) {
        Some(h) => Some(h),
        None => match env.lookup("USERPROFILE"@) {
            Some(h) => Some(h),
            None => match (env.lookup("HOMEDRIVE"@), env.lookup("HOMEPATH"@)) {
                (Some(d), Some(p)) => Some(path_join(d, p)),
                _ => None,
            },
        },
    }
}

pub fn resolve_home_dir(env: &Env) -> (r: Option<String>)
    ensures
        opt_view(r) == home_dir(*env),
{
    if let Some(h) = env.get("HOME") {
        return Some(h);
    }
    if let Some(h) = env.get("USERPROFILE") {
        return Some(h);
    }
    let d = env.get("HOMEDRIVE");
    let p = env.get("HOMEPATH");
    match (d, p) {
        (Some(d), Some(p)) => Some(join_path(d.as_str(), p.as_str())),
        _ => None,
    }
}

/// A configured path: trimmed, non-empty, with `~` and `~/...` taken from the home directory.
pub open spec fn path_str_spec(raw: Seq<char>, env: Env) -> Result<Seq<char>, Seq<char>> {
    let t = trim(raw);
    if t.len() == 0 {
        Err("config path cannot be empty"@)
    } else if t == seq!['~'] {
        match home_dir(env) {
            Some(h) => Ok(h),
            None => Err("could not resolve home directory for config path"@),
        }
    } else if seq!['~', '/'].is_prefix_of(t) {
        match home_dir(env) {
            Some(h) => Ok(path_join(h, t.skip(2))),
            None => Err("could not resolve home directory for config path"@),
        }
    } else {
        Ok(t)
    }
}

pub fn resolve_path_str(raw: &str, env: &Env) -> (r: Result<String, ConfigError>)
    ensures
        result_view(r) == path_str_spec(raw@, *env),
{
    let t = trim_str(raw);
    let tv = chars_of(t.as_str());
    if tv.len() == 0 {
        return Err(config_error(String::from_str("config path cannot be empty")));
    }
    let is_tilde = tv.len() == 1 && tv[0] == '~';
    let tilde_slash = tv.len() >= 2 && tv[0] == '~' && tv[1] == '/';
    proof {
        if is_tilde {
            assert(tv@ =~= seq!['~']);
        } else {
            assert(tv@ != seq!['~'] ==> !(tv@ =~= seq!['~']));
        }
        if tilde_slash {
            assert(seq!['~', '/'].is_prefix_of(tv@)) by {
                assert(tv@.subrange(0, 2) =~= seq!['~', '/']);
            }
        } else if seq!['~', '/'].is_prefix_of(tv@) {
            assert(tv@[0] == '~' && tv@[1] == '/');
        }
    }
    if is_tilde || tilde_slash {
        let home = match resolve_home_dir(env) {
            Some(h) => h,
            None => {
                return Err(
                    config_error(String::from_str("could not resolve home directory for config path")),
                );
            },
        };
        if is_tilde {
            return Ok(home);
        }
        let rest = crate::text::string_from_range(tv.as_slice(), 2, tv.len());
        proof {
            assert(tv@.subrange(2, tv@.len() as int) == tv@.skip(2));
        }
        return Ok(join_path(home.as_str(), rest.as_str()));
    }
    Ok(t)
}

/// Where the configuration file is, for saving settings changed at run
/// time; the saving itself is file work done by the caller.
pub struct ConfigStore {
    path: String,
}

impl ConfigStore {
    pub fn new(path: String) -> (r: Self)
        ensures
            r.path_spec() == path@,
    {
        ConfigStore { path }
    }

    pub closed spec fn path_spec(&self) -> Seq<char> {
        self.path@
    }

    /// The configuration file's path.
    pub fn path(&self) -> (r: &str)
        ensures
            r@ == self.path_spec(),
    {
        self.path.as_str()
    }
}

} // verus!

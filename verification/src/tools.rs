use vstd::prelude::*;

use crate::config::{McpServerConfig, McpTransport, WebSearchConfig, clamp_usize};
use crate::json::{get_key, JsonValue};
use crate::permissions::{PermissionDecision, PermissionEngine};
use crate::text::{eq_ignore_ascii_case, eq_ignore_case, lower, to_lower, trim};
use crate::urls::{parse_url, url_parse};

verus! {

/// What a tool reports after running.
pub struct ToolResult {
    pub success: bool,
    pub output: String,
    pub error: Option<String>,
}

#[derive(PartialEq, Eq, Structural, Clone, Copy)]
pub enum ToolCallStatus {
    Success,
    Failed,
    Denied,
}

/// A tool call's outcome as the agent records it.
pub struct ToolExecutionResult {
    pub status: ToolCallStatus,
    pub output: String,
    pub error: Option<String>,
}

impl ToolExecutionResult {
    pub fn success(output: String) -> (r: Self)
        ensures
            r.status == ToolCallStatus::Success,
            r.output == output,
            r.error is None,
    {
        ToolExecutionResult { status: ToolCallStatus::Success, output, error: None }
    }

    pub fn failed(output: String, error: Option<String>) -> (r: Self)
        ensures
            r.status == ToolCallStatus::Failed,
            r.output == output,
            r.error == error,
    {
        ToolExecutionResult { status: ToolCallStatus::Failed, output, error }
    }

    /// A refused call: the reason is both the output and the error.
    pub fn denied(reason: String) -> (r: Self)
        ensures
            r.status == ToolCallStatus::Denied,
            r.output@ == reason@,
            r.error matches Some(e) && e@ == reason@,
    {
        ToolExecutionResult {
            status: ToolCallStatus::Denied,
            output: reason.clone(),
            error: Some(reason),
        }
    }

    /// Records what a tool returned: a failure with blank output shows its
    /// error text (or nothing) as the output.
    pub fn from_tool_result(result: ToolResult) -> (r: Self)
        ensures
            result.success ==> r.status == ToolCallStatus::Success && r.output == result.output
                && r.error is None,
            !result.success ==> r.status == ToolCallStatus::Failed && r.error == result.error
                && r.output@ == (if trim(result.output@).len() == 0 {
                match result.error {
                    Some(e) => e@,
                    None => Seq::<char>::empty(),
                }
            } else {
                result.output@
            }),
    {
        if result.success {
            ToolExecutionResult::success(result.output)
        } else {
            let blank = crate::text::trim_str(result.output.as_str()).as_str().is_empty();
            let output = if blank {
                match &result.error {
                    Some(e) => e.clone(),
                    None => String::new(),
                }
            } else {
                result.output
            };
            ToolExecutionResult::failed(output, result.error)
        }
    }
}

pub open spec fn web_fetch_name() -> Seq<char> {
    seq!['w', 'e', 'b', '_', 'f', 'e', 't', 'c', 'h']
}

pub open spec fn url_key() -> Seq<char> {
    seq!['u', 'r', 'l']
}

/// The host of a `web_fetch` call's `url`, lower-cased, which permission
/// rules see as the argument `domain`.
pub open spec fn permission_domain_spec(tool: Seq<char>, args: JsonValue) -> Option<Seq<char>> {
    if !eq_ignore_case(tool, web_fetch_name()) {
        None
    } else {
        match get_key(args, url_key()) {
            Some(JsonValue::Str(u, _)) => if u@.len() == 0 || !(args is Object) {
                None
            } else {
                match url_parse(u@) {
                    Ok((_s, Some(h), _p, _path, _q)) => Some(lower(h)),
                    _ => None,
                }
            },
            _ => None,
        }
    }
}

/// The domain to add to a call's arguments before permission checks.
pub fn permission_domain(tool: &str, args: &JsonValue) -> (r: Option<String>)
    ensures
        crate::env::opt_view(r) == permission_domain_spec(tool@, *args),
{
    proof {
        reveal_strlit("web_fetch");
        reveal_strlit("url");
        assert("web_fetch"@ =~= web_fetch_name());
        assert("url"@ =~= url_key());
    }
    if !eq_ignore_ascii_case(tool, "web_fetch") {
        return None;
    }
    let url = match args.get("url") {
        Some(v) => match v.as_str() {
            Some(s) => s,
            None => {
                return None;
            },
        },
        None => {
            return None;
        },
    };
    if url.as_str().is_empty() {
        return None;
    }
    match args {
        JsonValue::Object(_, _) => {},
        _ => {
            return None;
        },
    }
    match parse_url(url.as_str()) {
        Ok(p) => match p.host {
            Some(h) => Some(to_lower(h.as_str())),
            None => None,
        },
        Err(_) => None,
    }
}

/// The permission check before running a tool: a refusal when enforcement is
/// asked for and the engine refuses the call, nothing otherwise.
pub fn check_tool_permission(
    engine: &PermissionEngine,
    name: &str,
    args: &JsonValue,
    enforce: bool,
) -> (r: Option<ToolExecutionResult>)
    ensures
        match r {
            Some(d) => enforce && !crate::permissions::permits(*engine, name@, *args) && d.status
                == ToolCallStatus::Denied && d.output@ == crate::permissions::decision_reason(
                *engine,
                name@,
                *args,
            ) && (d.error matches Some(e) && e@ == crate::permissions::decision_reason(
                *engine,
                name@,
                *args,
            )),
            None => !enforce || crate::permissions::permits(*engine, name@, *args),
        },
{
    if !enforce {
        return None;
    }
    let decision = engine.evaluate(name, args);
    if decision.allowed {
        None
    } else {
        Some(ToolExecutionResult::denied(decision.reason))
    }
}

/// The registry name of an MCP server's tool: `server__tool`.
pub fn mcp_prefixed_name(server: &str, tool: &str) -> (r: String)
    ensures
        r@ == server@ + "__"@ + tool@,
{
    let mut s = String::from_str(server);
    s.append("__");
    s.append(tool);
    s
}

/// Reads files with line numbers.
pub struct FilesystemReadTool;

impl FilesystemReadTool {
    pub fn new() -> (r: Self) {
        FilesystemReadTool
    }

    pub fn name(&self) -> (r: &'static str)
        ensures
            r@ == "filesystem_read"@,
    {
        "filesystem_read"
    }
}

/// Writes files, creating parent directories.
pub struct FilesystemWriteTool;

impl FilesystemWriteTool {
    pub fn new() -> (r: Self) {
        FilesystemWriteTool
    }

    pub fn name(&self) -> (r: &'static str)
        ensures
            r@ == "filesystem_write"@,
    {
        "filesystem_write"
    }
}

/// Finds files matching a glob pattern.
pub struct FilesystemGlobTool;

impl FilesystemGlobTool {
    pub fn new() -> (r: Self) {
        FilesystemGlobTool
    }

    pub fn name(&self) -> (r: &'static str)
        ensures
            r@ == "filesystem_glob"@,
    {
        "filesystem_glob"
    }
}

/// Searches file contents with a regular expression.
pub struct FilesystemSearchTool;

impl FilesystemSearchTool {
    pub fn new() -> (r: Self) {
        FilesystemSearchTool
    }

    pub fn name(&self) -> (r: &'static str)
        ensures
            r@ == "filesystem_search"@,
    {
        "filesystem_search"
    }
}

/// Runs shell commands with a timeout and an output limit, in a working
/// directory that defaults to the workspace.
pub struct ShellTool {
    pub timeout_secs: u64,
    pub max_output_bytes: usize,
    pub workspace_dir: Option<String>,
}

impl ShellTool {
    pub fn new(timeout_secs: u64) -> (r: Self)
        ensures
            r.timeout_secs == timeout_secs,
            r.max_output_bytes == 10_000,
            r.workspace_dir is None,
    {
        ShellTool::with_limits(timeout_secs, 10_000)
    }

    pub fn with_limits(timeout_secs: u64, max_output_bytes: usize) -> (r: Self)
        ensures
            r.timeout_secs == timeout_secs,
            r.max_output_bytes == max_output_bytes,
            r.workspace_dir is None,
    {
        ShellTool { timeout_secs, max_output_bytes, workspace_dir: None }
    }

    pub fn with_workspace_dir(timeout_secs: u64, workspace_dir: String) -> (r: Self)
        ensures
            r.timeout_secs == timeout_secs,
            r.max_output_bytes == 10_000,
            r.workspace_dir == Some(workspace_dir),
    {
        ShellTool::with_workspace_dir_and_limits(timeout_secs, 10_000, workspace_dir)
    }

    pub fn with_workspace_dir_and_limits(
        timeout_secs: u64,
        max_output_bytes: usize,
        workspace_dir: String,
    ) -> (r: Self)
        ensures
            r.timeout_secs == timeout_secs,
            r.max_output_bytes == max_output_bytes,
            r.workspace_dir == Some(workspace_dir),
    {
        ShellTool { timeout_secs, max_output_bytes, workspace_dir: Some(workspace_dir) }
    }

    pub fn name(&self) -> (r: &'static str)
        ensures
            r@ == "shell"@,
    {
        "shell"
    }
}

/// Searches the web through the configured provider.
pub struct WebSearchTool {
    pub config: WebSearchConfig,
}

impl WebSearchTool {
    /// The requested count (or the configured maximum), kept within 1..=10
    /// and within the configured maximum.
    pub open spec fn resolve_count_spec(&self, requested: Option<u64>) -> usize {
        let max = clamp_usize(self.config.max_results, 1, 10);
        let from_args = match requested {
            Some(v) => if v <= usize::MAX {
                v as usize
            } else {
                max
            },
            None => max,
        };
        let c = clamp_usize(from_args, 1, 10);
        if c <= max {
            c
        } else {
            max
        }
    }

    pub fn new(config: WebSearchConfig) -> (r: Self)
        ensures
            r.config == config,
    {
        WebSearchTool { config }
    }

    /// How many results to ask for: the requested count (or the configured
    /// maximum), kept within 1..=10 and within the configured maximum.
    pub fn resolve_count(&self, requested: Option<u64>) -> (r: usize)
        ensures
            r == self.resolve_count_spec(requested),
            r == ({
                let max = clamp_usize(self.config.max_results, 1, 10);
                let from_args = match requested {
                    Some(v) => if v <= usize::MAX {
                        v as usize
                    } else {
                        max
                    },
                    None => max,
                };
                let c = clamp_usize(from_args, 1, 10);
                if c <= max {
                    c
                } else {
                    max
                }
            }),
    {
        let max = self.config.resolved_max_results();
        let from_args = match requested {
            Some(v) => if v <= usize::MAX as u64 {
                v as usize
            } else {
                max
            },
            None => max,
        };
        let c = if from_args < 1 {
            1
        } else if from_args > 10 {
            10
        } else {
            from_args
        };
        if c <= max {
            c
        } else {
            max
        }
    }
}

/// Which MCP connection a server configuration calls for.
#[derive(PartialEq, Eq, Structural, Clone, Copy)]
pub enum TransportKind {
    Stdio,
    Http,
}

/// The connection kind for a server: a child process over stdio, or HTTP;
/// a stdio server without a command or an HTTP server without a URL is
/// refused.
pub fn create_transport(config: &McpServerConfig) -> (r: Result<TransportKind, String>)
    ensures
        match r {
            Ok(k) => transport_target_spec(*config) is Ok && (k == TransportKind::Stdio) == (config.transport
                == McpTransport::Stdio),
            Err(e) => transport_target_spec(*config) == Err::<Seq<char>, Seq<char>>(e@),
        },
{
    match transport_target(config) {
        Err(e) => Err(e),
        Ok(_) => Ok(
            match config.transport {
                McpTransport::Stdio => TransportKind::Stdio,
                McpTransport::Http => TransportKind::Http,
            },
        ),
    }
}

/// A configured text trimmed, when it is present and not blank.
pub open spec fn given_text(o: Option<String>) -> Option<Seq<char>> {
    match o {
        Some(x) => if trim(x@).len() > 0 {
            Some(trim(x@))
        } else {
            None
        },
        None => None,
    }
}

/// What a server's connection is made to: the command of a stdio server or
/// the URL of an HTTP one, trimmed; a server without it is refused.
pub open spec fn transport_target_spec(config: McpServerConfig) -> Result<Seq<char>, Seq<char>> {
    match config.transport {
        McpTransport::Stdio => match given_text(config.command) {
            Some(c) => Ok(c),
            None => Err("stdio transport requires command"@),
        },
        McpTransport::Http => match given_text(config.url) {
            Some(u) => Ok(u),
            None => Err("http transport requires url"@),
        },
    }
}

fn given_text_of(o: &Option<String>) -> (r: Option<String>)
    ensures
        crate::env::opt_view(r) == given_text(*o),
{
    match o {
        Some(x) => {
            let t = crate::text::trim_str(x.as_str());
            if t.as_str().is_empty() {
                None
            } else {
                Some(t)
            }
        },
        None => None,
    }
}

/// The command (stdio) or URL (HTTP) to connect a server with, or why the
/// server cannot be connected.
pub fn transport_target(config: &McpServerConfig) -> (r: Result<String, String>)
    ensures
        match r {
            Ok(t) => transport_target_spec(*config) == Ok::<Seq<char>, Seq<char>>(t@),
            Err(e) => transport_target_spec(*config) == Err::<Seq<char>, Seq<char>>(e@),
        },
{
    match config.transport {
        McpTransport::Stdio => match given_text_of(&config.command) {
            Some(c) => Ok(c),
            None => Err(String::from_str("stdio transport requires command")),
        },
        McpTransport::Http => match given_text_of(&config.url) {
            Some(u) => Ok(u),
            None => Err(String::from_str("http transport requires url")),
        },
    }
}

} // verus!

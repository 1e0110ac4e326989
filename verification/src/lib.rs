//! Verified core of the Rika assistant: configuration rules, tool permission
//! evaluation, session bookkeeping, prompt assembly and the text parsers the
//! gateway relies on.

pub mod agent;
pub mod config;
pub mod env;
pub mod gateway;
pub mod file_tools;
pub mod text;
pub mod tools;
pub mod web_fetch;
pub mod web_search;
pub mod urls;
pub mod json;
pub mod mcp_oauth;
pub mod mcp_runtime;
pub mod permissions;
pub mod skills;
pub mod stream;
pub mod system_events;
pub mod process;
pub mod prompt;
pub mod providers;
pub mod runs;
pub mod search;
pub mod session;
pub mod shell;
pub mod wildcard;
pub mod wire;

use vstd::prelude::*;

use crate::agent::ToolApprovalDecisionKind;
use crate::config::{PermissionsConfig, ToolPermissionsConfig};
use crate::env::opt_view;
use crate::json::{JsonValue, json_text};
use crate::providers::{ChatMessage, TokenUsage, ToolCall};
use crate::text::{contains_str, trim, trim_str, views};
use crate::tools::ToolCallStatus;
use crate::wire::{encode_tool_calls_message, encode_tool_result, tool_calls_record, tool_result_record};

verus! {

// ── Client messages ─────────────────────────────────────────────────────────

/// A message from a WebSocket client, as its JSON fields give it.
pub struct ClientMessage {
    pub msg_type: String,
    pub content: Option<String>,
    pub session_id: Option<String>,
    pub request_id: Option<String>,
    pub decision: Option<ToolApprovalDecisionKind>,
    pub allow_rule: Option<String>,
    pub queue_item_id: Option<String>,
}

/// What the gateway does with a client message.
pub enum ClientCommand {
    /// Nothing (a chat message without text).
    Ignore,
    /// Send the text to the session, which becomes the connection's current one.
    Submit { session_id: String, content: String },
    /// Stop the session's active run.
    Stop { session_id: String },
    /// Cancel queued inputs of the session: the one with this id, or all.
    CancelQueued { session_id: String, item_id: Option<String> },
    /// Answer a tool approval request; an allow-always answer carries the
    /// rule to save.
    Approve { request_id: String, decision: ToolApprovalDecisionKind, allow_rule: Option<String> },
    /// Report this error to the client.
    Error(String),
}

/// A field's value trimmed, when present and not blank.
pub open spec fn given(v: Option<Seq<char>>) -> Option<Seq<char>> {
    match v {
        Some(s) => if trim(s).len() > 0 {
            Some(trim(s))
        } else {
            None
        },
        None => None,
    }
}

/// The session a message names, or else the connection's current one.
pub open spec fn target_session(named: Option<Seq<char>>, current: Seq<char>) -> Seq<char> {
    match given(named) {
        Some(s) => s,
        None => current,
    }
}

pub open spec fn missing_field_text(field: Seq<char>) -> Seq<char> {
    "missing required field '"@ + field + "'"@
}

pub open spec fn approval_error_text(reason: Seq<char>) -> Seq<char> {
    "Failed to apply tool approval decision: "@ + reason
}

/// A client command as (kind, session, text, item, decision, rule): the
/// view the contract of `client_command` is stated over.
pub enum CommandView {
    Ignore,
    Submit(Seq<char>, Seq<char>),
    Stop(Seq<char>),
    CancelQueued(Seq<char>, Option<Seq<char>>),
    Approve(Seq<char>, ToolApprovalDecisionKind, Option<Seq<char>>),
    Error(Seq<char>),
}

pub open spec fn command_view(c: ClientCommand) -> CommandView {
    match c {
        ClientCommand::Ignore => CommandView::Ignore,
        ClientCommand::Submit { session_id, content } => CommandView::Submit(session_id@, content@),
        ClientCommand::Stop { session_id } => CommandView::Stop(session_id@),
        ClientCommand::CancelQueued { session_id, item_id } => CommandView::CancelQueued(
            session_id@,
            opt_view(item_id),
        ),
        ClientCommand::Approve { request_id, decision, allow_rule } => CommandView::Approve(
            request_id@,
            decision,
            opt_view(allow_rule),
        ),
        ClientCommand::Error(m) => CommandView::Error(m@),
    }
}

/// An approval answer: its request id and decision are required, and an
/// allow-always answer requires the rule to save.
pub open spec fn approval_command(m: ClientMessage) -> CommandView {
    match given(opt_view(m.request_id)) {
        None => CommandView::Error(approval_error_text(missing_field_text("request_id"@))),
        Some(rid) => match m.decision {
            None => CommandView::Error(approval_error_text(missing_field_text("decision"@))),
            Some(d) => if d == ToolApprovalDecisionKind::AllowPersist {
                match given(opt_view(m.allow_rule)) {
                    None => CommandView::Error(approval_error_text(missing_field_text("allow_rule"@))),
                    Some(rule) => CommandView::Approve(rid, d, Some(rule)),
                }
            } else {
                CommandView::Approve(rid, d, None)
            },
        },
    }
}

/// The command for a client message on a connection whose current session
/// is `current`.
pub open spec fn client_command_spec(m: ClientMessage, current: Seq<char>) -> CommandView {
    let t = m.msg_type@;
    let session = target_session(opt_view(m.session_id), current);
    if t == "message"@ {
        match m.content {
            Some(c) => if trim(c@).len() > 0 {
                CommandView::Submit(session, c@)
            } else {
                CommandView::Ignore
            },
            None => CommandView::Ignore,
        }
    } else if t == "kill_switch"@ {
        CommandView::Stop(session)
    } else if t == "queue_cancel"@ {
        CommandView::CancelQueued(session, given(opt_view(m.queue_item_id)))
    } else if t == "tool_approval_decision"@ {
        approval_command(m)
    } else {
        CommandView::Error("Unsupported WebSocket message type: "@ + t)
    }
}

/// A field's value trimmed, when present and not blank.
pub fn given_field(v: &Option<String>) -> (r: Option<String>)
    ensures
        opt_view(r) == given(opt_view(*v)),
{
    match v {
        Some(s) => {
            let t = trim_str(s.as_str());
            if t.as_str().is_empty() {
                None
            } else {
                Some(t)
            }
        },
        None => None,
    }
}

/// `Ok` with the trimmed value, or the missing-field error.
pub fn required_field(value: &Option<String>, field_name: &str) -> (r: Result<String, String>)
    ensures
        match r {
            Ok(s) => given(opt_view(*value)) == Some(s@),
            Err(e) => given(opt_view(*value)) is None && e@ == missing_field_text(field_name@),
        },
{
    match given_field(value) {
        Some(s) => Ok(s),
        None => {
            let mut e = String::from_str("missing required field '");
            e.append(field_name);
            e.append("'");
            Err(e)
        },
    }
}

fn target_session_of(named: &Option<String>, current: &str) -> (r: String)
    ensures
        r@ == target_session(opt_view(*named), current@),
{
    match given_field(named) {
        Some(s) => s,
        None => String::from_str(current),
    }
}

fn approval_error(reason: String) -> (r: ClientCommand)
    ensures
        command_view(r) == CommandView::Error(approval_error_text(reason@)),
{
    let mut m = String::from_str("Failed to apply tool approval decision: ");
    m.append(reason.as_str());
    ClientCommand::Error(m)
}

fn approval_command_of(m: &ClientMessage) -> (r: ClientCommand)
    ensures
        command_view(r) == approval_command(*m),
{
    let request_id = match required_field(&m.request_id, "request_id") {
        Ok(s) => s,
        Err(e) => return approval_error(e),
    };
    let decision = match m.decision {
        Some(d) => d,
        None => {
            let mut e = String::from_str("missing required field '");
            e.append("decision");
            e.append("'");
            return approval_error(e);
        },
    };
    if decision == ToolApprovalDecisionKind::AllowPersist {
        match required_field(&m.allow_rule, "allow_rule") {
            Ok(rule) => ClientCommand::Approve { request_id, decision, allow_rule: Some(rule) },
            Err(e) => approval_error(e),
        }
    } else {
        ClientCommand::Approve { request_id, decision, allow_rule: None }
    }
}

/// Decides what a client message asks for: a chat message with text goes
/// to the session it names (or the current one), a kill switch stops that
/// session's run, a queue cancellation removes queued inputs, an approval
/// answer is checked for its required fields, and any other type is an
/// error.
pub fn client_command(m: &ClientMessage, current_session: &str) -> (r: ClientCommand)
    ensures
        command_view(r) == client_command_spec(*m, current_session@),
{
    let t = m.msg_type.as_str();
    if crate::text::str_eq(t, "message") {
        match &m.content {
            Some(c) => {
                let ct = trim_str(c.as_str());
                if ct.as_str().is_empty() {
                    ClientCommand::Ignore
                } else {
                    ClientCommand::Submit {
                        session_id: target_session_of(&m.session_id, current_session),
                        content: c.clone(),
                    }
                }
            },
            None => ClientCommand::Ignore,
        }
    } else if crate::text::str_eq(t, "kill_switch") {
        ClientCommand::Stop { session_id: target_session_of(&m.session_id, current_session) }
    } else if crate::text::str_eq(t, "queue_cancel") {
        ClientCommand::CancelQueued {
            session_id: target_session_of(&m.session_id, current_session),
            item_id: given_field(&m.queue_item_id),
        }
    } else if crate::text::str_eq(t, "tool_approval_decision") {
        approval_command_of(m)
    } else {
        let mut e = String::from_str("Unsupported WebSocket message type: ");
        e.append(t);
        ClientCommand::Error(e)
    }
}

// ── Permission updates ──────────────────────────────────────────────────────

/// Rules trimmed, blank ones dropped, order kept.
pub open spec fn sanitized_rules(raw: Seq<Seq<char>>) -> Seq<Seq<char>>
    decreases raw.len(),
{
    if raw.len() == 0 {
        Seq::empty()
    } else if trim(raw.last()).len() > 0 {
        sanitized_rules(raw.drop_last()).push(trim(raw.last()))
    } else {
        sanitized_rules(raw.drop_last())
    }
}

/// Trims each rule and drops the blank ones.
pub fn sanitize_rules(raw: &Vec<String>) -> (r: Vec<String>)
    ensures
        views(r@) == sanitized_rules(views(raw@)),
{
    let mut out: Vec<String> = Vec::new();
    let mut i: usize = 0;
    while i < raw.len()
        invariant
            i <= raw@.len(),
            views(out@) == sanitized_rules(views(raw@).take(i as int)),
        decreases raw.len() - i,
    {
        let t = trim_str(raw[i].as_str());
        proof {
            assert(views(raw@).take(i + 1).drop_last() =~= views(raw@).take(i as int));
            assert(views(raw@).take(i + 1).last() == raw@[i as int]@);
        }
        if !t.as_str().is_empty() {
            let ghost before = out@;
            out.push(t);
            proof {
                assert(views(out@) =~= views(before).push(t@));
            }
        }
        i = i + 1;
    }
    proof {
        assert(views(raw@).take(raw@.len() as int) =~= views(raw@));
    }
    out
}

/// The permissions an allow-always answer leads to: the trimmed rule is
/// added to the allow list unless it is already there; a blank rule is an
/// error.
pub fn with_allow_rule(config: &PermissionsConfig, allow_rule: &str) -> (r: Result<PermissionsConfig, String>)
    ensures
        match r {
            Ok(c) => {
                &&& trim(allow_rule@).len() > 0
                &&& c.enabled == config.enabled
                &&& views(c.tools.deny@) == views(config.tools.deny@)
                &&& views(c.tools.allow@) == if views(config.tools.allow@).contains(trim(allow_rule@)) {
                    views(config.tools.allow@)
                } else {
                    views(config.tools.allow@).push(trim(allow_rule@))
                }
            },
            Err(e) => trim(allow_rule@).len() == 0 && e@ == "allow_rule cannot be empty"@,
        },
{
    let rule = trim_str(allow_rule);
    if rule.as_str().is_empty() {
        return Err(String::from_str("allow_rule cannot be empty"));
    }
    let mut allow = config.tools.allow.clone();
    let deny = config.tools.deny.clone();
    proof {
        assert(views(allow@) == views(config.tools.allow@));
    }
    if !contains_str(&allow, rule.as_str()) {
        let ghost before = allow@;
        allow.push(rule);
        proof {
            assert(views(allow@) =~= views(before).push(trim(allow_rule@)));
        }
    }
    Ok(PermissionsConfig { enabled: config.enabled, tools: ToolPermissionsConfig { allow, deny } })
}

// ── Session file changes ────────────────────────────────────────────────────

/// The kind of a file-system change seen in the sessions directory.
#[derive(Clone, Copy, PartialEq, Eq, Structural)]
pub enum WatchEventKind {
    Any,
    Access,
    Create,
    Modify,
    Remove,
    Other,
}

/// A session file: the index `sessions.json` or a `.jsonl` history.
pub open spec fn session_file_name(name: Seq<char>) -> bool {
    name == "sessions.json"@ || ".jsonl"@.is_suffix_of(name)
}

/// Whether a change calls for the thread list to be reloaded: any kind but
/// an access, touching no named path or at least one session file (a path
/// whose file name cannot be read as text is no session file).
pub open spec fn relevant_change(kind: WatchEventKind, names: Seq<Option<Seq<char>>>) -> bool {
    kind != WatchEventKind::Access && (names.len() == 0 || exists|i: int|
        0 <= i < names.len() && names_session_file(#[trigger] names[i]))
}

/// Whether a file name is present and a session file's.
pub open spec fn names_session_file(name: Option<Seq<char>>) -> bool {
    match name {
        Some(n) => session_file_name(n),
        None => false,
    }
}

/// The file names as text.
pub open spec fn name_views(s: Seq<Option<String>>) -> Seq<Option<Seq<char>>> {
    s.map_values(|o: Option<String>| opt_view(o))
}

/// Whether `name` is a session file's name.
pub fn is_session_file_name(name: &str) -> (r: bool)
    ensures
        r == session_file_name(name@),
{
    let v = crate::text::chars_of(name);
    let suffix = crate::text::chars_of(".jsonl");
    crate::text::str_eq(name, "sessions.json") || crate::text::ends_with(v.as_slice(), suffix.as_slice())
}

/// Whether a change of `kind` to paths with these file names calls for the
/// thread list to be reloaded.
pub fn is_relevant_session_event(kind: WatchEventKind, file_names: &Vec<Option<String>>) -> (r: bool)
    ensures
        r == relevant_change(kind, name_views(file_names@)),
{
    let ghost names = name_views(file_names@);
    if kind == WatchEventKind::Access {
        return false;
    }
    if file_names.len() == 0 {
        return true;
    }
    let mut i: usize = 0;
    while i < file_names.len()
        invariant
            i <= file_names@.len(),
            names == name_views(file_names@),
            kind != WatchEventKind::Access,
            forall|j: int| 0 <= j < i ==> !names_session_file(#[trigger] names[j]),
        decreases file_names@.len() - i,
    {
        match &file_names[i] {
            Some(n) => {
                if is_session_file_name(n.as_str()) {
                    assert(names[i as int] == Some(n@));
                    assert(names_session_file(names[i as int]));
                    return true;
                }
                assert(names[i as int] == Some(n@));
            },
            None => {
                assert(names[i as int] is None);
            },
        }
        i = i + 1;
    }
    false
}

} // verus!

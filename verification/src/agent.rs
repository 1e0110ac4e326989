use vstd::prelude::*;

use crate::json::{get_key, json_parsed, json_text, parse_json, JsonValue};
use crate::providers::{ChatMessage, ChatResponse, TokenUsage, ToolCall};
use crate::wire::{call_view, call_views, lemma_call_views_len, lemma_call_views_index, encode_tool_calls_message, encode_tool_result, tool_calls_record, tool_result_record, CallView};
use crate::text::{decimal_text, push_decimal, chars_of, eq_ignore_ascii_case, eq_ignore_case, is_whitespace, is_ws, trim, trim_bounds, string_from_range};
use crate::tools::ToolCallStatus;

verus! {

/// The user's answer to a tool approval request.
#[derive(PartialEq, Eq, Structural, Clone, Copy)]
pub enum ToolApprovalDecisionKind {
    AllowPersist,
    AllowOnce,
    Deny,
}

pub struct ToolApprovalDecision {
    pub request_id: String,
    pub decision: ToolApprovalDecisionKind,
}

/// The agent gives up after this many model calls without a final answer.
pub const MAX_ITERATIONS: usize = 30;

/// What the agent does with a refused tool call once the user has answered,
/// or once waiting has timed out.
#[derive(PartialEq, Eq, Structural)]
pub enum ApprovalAction {
    /// Run again through the permission check (the new allow rule is saved).
    RunChecked,
    /// Run once without the permission check.
    RunUnchecked,
    /// Record the call as refused, with this output.
    Refuse,
}

/// The action for an approval answer (`None` when waiting timed out).
pub fn approval_action(decision: Option<ToolApprovalDecisionKind>) -> (r: ApprovalAction)
    ensures
        r == match decision {
            Some(ToolApprovalDecisionKind::AllowPersist) => ApprovalAction::RunChecked,
            Some(ToolApprovalDecisionKind::AllowOnce) => ApprovalAction::RunUnchecked,
            _ => ApprovalAction::Refuse,
        },
{
    match decision {
        Some(ToolApprovalDecisionKind::AllowPersist) => ApprovalAction::RunChecked,
        Some(ToolApprovalDecisionKind::AllowOnce) => ApprovalAction::RunUnchecked,
        _ => ApprovalAction::Refuse,
    }
}

/// The output recorded for a refused approval: the user said no, or waiting timed out.
pub fn refusal_output(decision: Option<ToolApprovalDecisionKind>) -> (r: String)
    ensures
        r@ == if decision is Some {
            "Tool call denied by user decision."@
        } else {
            "Tool approval timed out; tool call denied."@
        },
{
    match decision {
        Some(_) => String::from_str("Tool call denied by user decision."),
        None => String::from_str("Tool approval timed out; tool call denied."),
    }
}

/// The final answer's text, or `(no response)` when the model gave none.
pub fn final_text(text: Option<String>) -> (r: String)
    ensures
        r@ == match text {
            Some(t) => t@,
            None => "(no response)"@,
        },
{
    match text {
        Some(t) => t,
        None => String::from_str("(no response)"),
    }
}

pub open spec fn sat_add(a: u32, b: u32) -> u32 {
    if a + b > u32::MAX {
        u32::MAX
    } else {
        (a + b) as u32
    }
}

fn saturating_add(a: u32, b: u32) -> (r: u32)
    ensures
        r == sat_add(a, b),
{
    if a > u32::MAX - b {
        u32::MAX
    } else {
        a + b
    }
}

/// Counts of tool calls in one agent run, by outcome.
pub struct AgentTally {
    pub tool_call_count: u32,
    pub tool_call_success: u32,
    pub tool_call_failed: u32,
    pub tool_call_denied: u32,
    pub usage: TokenUsage,
    pub has_usage: bool,
}

impl AgentTally {
    pub open spec fn new_spec() -> AgentTally {
        AgentTally {
            tool_call_count: 0,
            tool_call_success: 0,
            tool_call_failed: 0,
            tool_call_denied: 0,
            usage: TokenUsage { prompt_tokens: 0, completion_tokens: 0, total_tokens: 0 },
            has_usage: false,
        }
    }

    pub open spec fn start_call_spec(self) -> AgentTally {
        AgentTally { tool_call_count: sat_add(self.tool_call_count, 1), ..self }
    }

    pub open spec fn record_spec(self, status: ToolCallStatus) -> AgentTally {
        match status {
            ToolCallStatus::Success => AgentTally { tool_call_success: sat_add(self.tool_call_success, 1), ..self },
            ToolCallStatus::Failed => AgentTally { tool_call_failed: sat_add(self.tool_call_failed, 1), ..self },
            ToolCallStatus::Denied => AgentTally { tool_call_denied: sat_add(self.tool_call_denied, 1), ..self },
        }
    }

    pub open spec fn add_usage_spec(self, u: TokenUsage) -> AgentTally {
        AgentTally {
            usage: TokenUsage {
                prompt_tokens: sat_add(self.usage.prompt_tokens, u.prompt_tokens),
                completion_tokens: sat_add(self.usage.completion_tokens, u.completion_tokens),
                total_tokens: sat_add(self.usage.total_tokens, u.total_tokens),
            },
            has_usage: true,
            ..self
        }
    }

    pub fn new() -> (r: Self)
        ensures
            r == AgentTally::new_spec(),
            r.tool_call_count == 0 && r.tool_call_success == 0 && r.tool_call_failed == 0
                && r.tool_call_denied == 0 && !r.has_usage,
            r.usage.prompt_tokens == 0 && r.usage.completion_tokens == 0 && r.usage.total_tokens
                == 0,
    {
        AgentTally {
            tool_call_count: 0,
            tool_call_success: 0,
            tool_call_failed: 0,
            tool_call_denied: 0,
            usage: TokenUsage { prompt_tokens: 0, completion_tokens: 0, total_tokens: 0 },
            has_usage: false,
        }
    }

    /// A tool call starts.
    pub fn start_call(&mut self)
        ensures
            *final(self) == old(self).start_call_spec(),
            final(self).tool_call_count == sat_add(old(self).tool_call_count, 1),
            final(self).tool_call_success == old(self).tool_call_success,
            final(self).tool_call_failed == old(self).tool_call_failed,
            final(self).tool_call_denied == old(self).tool_call_denied,
            final(self).usage == old(self).usage,
            final(self).has_usage == old(self).has_usage,
    {
        self.tool_call_count = saturating_add(self.tool_call_count, 1);
    }

    /// A tool call ends with `status`.
    pub fn record(&mut self, status: ToolCallStatus)
        ensures
            *final(self) == old(self).record_spec(status),
            final(self).tool_call_count == old(self).tool_call_count,
            final(self).tool_call_success == if status == ToolCallStatus::Success {
                sat_add(old(self).tool_call_success, 1)
            } else {
                old(self).tool_call_success
            },
            final(self).tool_call_failed == if status == ToolCallStatus::Failed {
                sat_add(old(self).tool_call_failed, 1)
            } else {
                old(self).tool_call_failed
            },
            final(self).tool_call_denied == if status == ToolCallStatus::Denied {
                sat_add(old(self).tool_call_denied, 1)
            } else {
                old(self).tool_call_denied
            },
            final(self).usage == old(self).usage,
            final(self).has_usage == old(self).has_usage,
    {
        match status {
            ToolCallStatus::Success => {
                self.tool_call_success = saturating_add(self.tool_call_success, 1);
            },
            ToolCallStatus::Failed => {
                self.tool_call_failed = saturating_add(self.tool_call_failed, 1);
            },
            ToolCallStatus::Denied => {
                self.tool_call_denied = saturating_add(self.tool_call_denied, 1);
            },
        }
    }

    /// A model response reported token usage.
    pub fn add_usage(&mut self, u: &TokenUsage)
        ensures
            *final(self) == old(self).add_usage_spec(*u),
            final(self).has_usage,
            final(self).usage.prompt_tokens == sat_add(old(self).usage.prompt_tokens, u.prompt_tokens),
            final(self).usage.completion_tokens == sat_add(
                old(self).usage.completion_tokens,
                u.completion_tokens,
            ),
            final(self).usage.total_tokens == sat_add(old(self).usage.total_tokens, u.total_tokens),
            final(self).tool_call_count == old(self).tool_call_count,
            final(self).tool_call_success == old(self).tool_call_success,
            final(self).tool_call_failed == old(self).tool_call_failed,
            final(self).tool_call_denied == old(self).tool_call_denied,
    {
        self.has_usage = true;
        self.usage.prompt_tokens = saturating_add(self.usage.prompt_tokens, u.prompt_tokens);
        self.usage.completion_tokens = saturating_add(self.usage.completion_tokens, u.completion_tokens);
        self.usage.total_tokens = saturating_add(self.usage.total_tokens, u.total_tokens);
    }
}

// ---------------------------------------------------------------------------
// Suggested allow rules
// ---------------------------------------------------------------------------

/// The end of the run of non-whitespace characters from `k`.
pub open spec fn word_end(s: Seq<char>, k: int) -> int
    decreases s.len() - k,
{
    if 0 <= k < s.len() && !is_ws(s[k]) {
        word_end(s, k + 1)
    } else {
        k
    }
}

/// The first non-whitespace index at or after `k`.
pub open spec fn skip_ws(s: Seq<char>, k: int) -> int
    decreases s.len() - k,
{
    if 0 <= k < s.len() && is_ws(s[k]) {
        skip_ws(s, k + 1)
    } else {
        k
    }
}

proof fn lemma_word_end(s: Seq<char>, k: int)
    requires
        0 <= k <= s.len(),
    ensures
        k <= word_end(s, k) <= s.len(),
    decreases s.len() - k,
{
    if 0 <= k < s.len() && !is_ws(s[k]) {
        lemma_word_end(s, k + 1);
    }
}

proof fn lemma_skip_ws(s: Seq<char>, k: int)
    requires
        0 <= k <= s.len(),
    ensures
        k <= skip_ws(s, k) <= s.len(),
    decreases s.len() - k,
{
    if 0 <= k < s.len() && is_ws(s[k]) {
        lemma_skip_ws(s, k + 1);
    }
}

fn word_end_of(v: &[char], k: usize) -> (r: usize)
    requires
        k <= v@.len(),
    ensures
        r as int == word_end(v@, k as int),
{
    let mut j = k;
    while j < v.len() && !is_whitespace(v[j])
        invariant
            k <= j <= v@.len(),
            word_end(v@, k as int) == word_end(v@, j as int),
        decreases v.len() - j,
    {
        j = j + 1;
    }
    j
}

fn skip_ws_of(v: &[char], k: usize) -> (r: usize)
    requires
        k <= v@.len(),
    ensures
        r as int == skip_ws(v@, k as int),
{
    let mut j = k;
    while j < v.len() && is_whitespace(v[j])
        invariant
            k <= j <= v@.len(),
            skip_ws(v@, k as int) == skip_ws(v@, j as int),
        decreases v.len() - j,
    {
        j = j + 1;
    }
    j
}

pub open spec fn str_arg(args: JsonValue, key: Seq<char>) -> Seq<char> {
    match get_key(args, key) {
        Some(JsonValue::Str(s, _)) => s@,
        _ => Seq::empty(),
    }
}

/// `s` with every `\` turned into `/`.
pub open spec fn backslash_to_slash(s: Seq<char>) -> Seq<char> {
    Seq::new(s.len(), |i: int| if s[i] == '\\' { '/' } else { s[i] })
}

/// The directory part of a read call's path, `\\` read as `/`, when non-empty.
pub open spec fn read_dir(args: JsonValue) -> Option<Seq<char>> {
    let p = backslash_to_slash(trim(str_arg(args, "path"@)));
    if trim(str_arg(args, "path"@)).len() == 0 {
        None
    } else {
        match crate::permissions::last_index(p, '/') {
            Some(j) => if j > 0 {
                Some(p.take(j))
            } else {
                None
            },
            None => None,
        }
    }
}

/// The allow rule offered when a call is refused: all tools of an MCP
/// server, the shell command's first one or two words, a read path's
/// directory, or else any call of the tool.
pub open spec fn suggested_rule_spec(tool: Seq<char>, args: JsonValue) -> Seq<char> {
    if mcp_rule(tool) is Some {
        mcp_rule(tool)->0
    } else if eq_ignore_case(tool, "shell"@) {
        shell_rule(args)
    } else if eq_ignore_case(tool, "filesystem_read"@) && read_dir(args) is Some {
        "filesystem_read(path:"@ + read_dir(args)->0 + "/*)"@
    } else {
        tool + "(*)"@
    }
}

fn str_arg_of(args: &JsonValue, key: &str) -> (r: String)
    ensures
        r@ == str_arg(*args, key@),
{
    match args.get(key) {
        Some(v) => match v.as_str() {
            Some(s) => s.clone(),
            None => String::new(),
        },
        None => String::new(),
    }
}

pub open spec fn mcp_rule(tool: Seq<char>) -> Option<Seq<char>> {
    let sep = crate::text::find_first(tool, "__"@);
    if sep is Some && "mcp_"@.is_prefix_of(tool.take(sep->0)) {
        Some("mcp_"@ + tool.take(sep->0).skip(4) + "_*(*)"@)
    } else {
        None
    }
}

fn mcp_rule_of(tool: &str) -> (r: Option<String>)
    ensures
        crate::env::opt_view(r) == mcp_rule(tool@),
{
    let tv = chars_of(tool);
    let sep_pat = chars_of("__");
    let sep = crate::text::find_first_index(tv.as_slice(), sep_pat.as_slice());
    match sep {
        None => None,
        Some(i) => {
            let mcp = chars_of("mcp_");
            proof {
                reveal_strlit("mcp_");
            }
            let prefix = crate::text::slice_vec(tv.as_slice(), 0, i);
            proof {
                assert(tv@.subrange(0, i as int) == tv@.take(i as int));
            }
            if crate::text::starts_with(prefix.as_slice(), mcp.as_slice()) {
                let mut out = String::from_str("mcp_");
                out.append(string_from_range(prefix.as_slice(), 4, prefix.len()).as_str());
                out.append("_*(*)");
                proof {
                    assert(prefix@.subrange(4, prefix@.len() as int) == prefix@.skip(4));
                }
                Some(out)
            } else {
                None
            }
        },
    }
}

pub open spec fn shell_rule(args: JsonValue) -> Seq<char> {
    let c = trim(str_arg(args, "command"@));
    if c.len() == 0 {
        "shell(*)"@
    } else {
        let e1 = word_end(c, 0);
        let k2 = skip_ws(c, e1);
        if k2 < c.len() {
            "shell(command:"@ + c.take(e1) + " "@ + c.subrange(k2, word_end(c, k2)) + " *)"@
        } else {
            "shell(command:"@ + c.take(e1) + " *)"@
        }
    }
}

fn shell_rule_of(args: &JsonValue) -> (r: String)
    ensures
        r@ == shell_rule(*args),
{
    let c = chars_of(crate::text::trim_str(str_arg_of(args, "command").as_str()).as_str());
    if c.len() == 0 {
        return String::from_str("shell(*)");
    }
    proof {
        lemma_word_end(c@, 0);
    }
    let e1 = word_end_of(c.as_slice(), 0);
    proof {
        lemma_skip_ws(c@, e1 as int);
        assert(c@.subrange(0, e1 as int) == c@.take(e1 as int));
    }
    let k2 = skip_ws_of(c.as_slice(), e1);
    let mut out = String::from_str("shell(command:");
    out.append(string_from_range(c.as_slice(), 0, e1).as_str());
    if k2 < c.len() {
        proof {
            lemma_word_end(c@, k2 as int);
        }
        let e2 = word_end_of(c.as_slice(), k2);
        out.append(" ");
        out.append(string_from_range(c.as_slice(), k2, e2).as_str());
    }
    out.append(" *)");
    out
}

fn read_rule_of(args: &JsonValue) -> (r: Option<String>)
    ensures
        crate::env::opt_view(r) == match read_dir(*args) {
            Some(d) => Some("filesystem_read(path:"@ + d + "/*)"@),
            None => None,
        },
{
    let p = chars_of(crate::text::trim_str(str_arg_of(args, "path").as_str()).as_str());
    if p.len() == 0 {
        return None;
    }
    let mut norm: Vec<char> = Vec::new();
    let mut k: usize = 0;
    while k < p.len()
        invariant
            k <= p.len(),
            norm@ == backslash_to_slash(p@).take(k as int),
        decreases p.len() - k,
    {
        norm.push(if p[k] == '\\' { '/' } else { p[k] });
        proof {
            assert(backslash_to_slash(p@).take(k + 1) == backslash_to_slash(p@).take(k as int).push(
                backslash_to_slash(p@)[k as int],
            ));
        }
        k = k + 1;
    }
    proof {
        assert(backslash_to_slash(p@).take(p.len() as int) == backslash_to_slash(p@));
    }
    match crate::permissions::last_index_of(norm.as_slice(), '/') {
        Some(j) => {
            if j > 0 {
                let mut out = String::from_str("filesystem_read(path:");
                out.append(string_from_range(norm.as_slice(), 0, j).as_str());
                out.append("/*)");
                proof {
                    assert(norm@.subrange(0, j as int) == norm@.take(j as int));
                }
                Some(out)
            } else {
                None
            }
        },
        None => None,
    }
}

/// The allow rule suggested for a refused call.
pub fn suggested_allow_rule(tool: &str, args: &JsonValue) -> (r: String)
    ensures
        r@ == suggested_rule_spec(tool@, *args),
{
    if let Some(rule) = mcp_rule_of(tool) {
        return rule;
    }
    if eq_ignore_ascii_case(tool, "shell") {
        return shell_rule_of(args);
    }
    if eq_ignore_ascii_case(tool, "filesystem_read") {
        if let Some(rule) = read_rule_of(args) {
            return rule;
        }
    }
    let mut out = String::from_str(tool);
    out.append("(*)");
    out
}

// ---------------------------------------------------------------------------
// The run loop's decisions
// ---------------------------------------------------------------------------

/// A message as (role, content).
pub open spec fn msg_view(m: ChatMessage) -> (Seq<char>, Seq<char>) {
    (m.role@, m.content@)
}

pub open spec fn msg_views(s: Seq<ChatMessage>) -> Seq<(Seq<char>, Seq<char>)> {
    s.map_values(|m: ChatMessage| msg_view(m))
}

fn copy_message(m: &ChatMessage) -> (r: ChatMessage)
    ensures
        msg_view(r) == msg_view(*m),
{
    ChatMessage { role: m.role.clone(), content: m.content.clone() }
}

fn copy_call(c: &ToolCall) -> (r: ToolCall)
    ensures
        call_view(r) == call_view(*c),
{
    ToolCall { id: c.id.clone(), name: c.name.clone(), arguments: c.arguments.clone() }
}

/// The message given up with once the model has been called
/// `MAX_ITERATIONS` times without a final answer.
pub open spec fn give_up_text() -> Seq<char> {
    "Agent reached maximum iterations ("@ + decimal_text(MAX_ITERATIONS as nat)
        + ") without a final response."@
}

/// Every counted tool call has exactly one outcome: the count is the sum of
/// the outcomes, both saturating at `u32::MAX`.
pub open spec fn outcomes_add_up(t: AgentTally) -> bool {
    let sum = t.tool_call_success + t.tool_call_failed + t.tool_call_denied;
    t.tool_call_count == (if sum > u32::MAX {
        u32::MAX as int
    } else {
        sum
    })
}

/// What the loop that drives an agent run does next.
pub enum AgentAction {
    /// Call the model with these messages.
    CallModel(Vec<ChatMessage>),
    /// Run this tool call and report its result.
    RunTool(ToolCall),
    /// Stop with this error message.
    GiveUp(String),
    /// The run has its final answer.
    Finished,
}

/// What a model response did to the run.
pub enum ResponseStep {
    /// The final answer.
    Final(String),
    /// Tool calls follow; the text beside them, when not empty, is a chunk
    /// to forward.
    ToolCalls(Option<String>),
}

/// One agent run: the conversation so far, the model calls made, the tool
/// calls of the latest response not yet run, and the tallies.
pub struct AgentRun {
    history: Vec<ChatMessage>,
    tally: AgentTally,
    model_calls: usize,
    calls: Vec<ToolCall>,
    next_call: usize,
    done: bool,
}

impl AgentRun {
    pub closed spec fn history(&self) -> Seq<(Seq<char>, Seq<char>)> {
        msg_views(self.history@)
    }

    pub closed spec fn model_calls(&self) -> nat {
        self.model_calls as nat
    }

    /// The tool calls of the latest response still to run, in order.
    pub closed spec fn pending(&self) -> Seq<CallView> {
        call_views(self.calls@).skip(self.next_call as int)
    }

    pub closed spec fn done(&self) -> bool {
        self.done
    }

    pub closed spec fn tally_spec(&self) -> AgentTally {
        self.tally
    }

    pub closed spec fn wf(&self) -> bool {
        &&& self.next_call <= self.calls@.len()
        &&& self.model_calls <= MAX_ITERATIONS
        &&& self.done ==> self.next_call == self.calls@.len()
        &&& outcomes_add_up(self.tally)
    }

    /// Starts a run on `history` with the user's message appended.
    pub fn new(history: Vec<ChatMessage>, user_message: &str) -> (r: Self)
        ensures
            r.wf(),
            r.history() == msg_views(history@).push(("user"@, user_message@)),
            r.model_calls() == 0,
            r.pending().len() == 0,
            !r.done(),
            r.tally_spec() == AgentTally::new_spec(),
    {
        let mut history = history;
        let ghost before = history@;
        history.push(ChatMessage::user(user_message));
        let r = AgentRun {
            history,
            tally: AgentTally::new(),
            model_calls: 0,
            calls: Vec::new(),
            next_call: 0,
            done: false,
        };
        proof {
            assert(msg_views(r.history@) =~= msg_views(before).push(("user"@, user_message@)));
            assert(call_views(r.calls@).skip(0) =~= Seq::<CallView>::empty());
        }
        r
    }

    /// The next thing to do: nothing once finished; the next pending tool
    /// call; giving up after `MAX_ITERATIONS` model calls; else a model call
    /// on the system prompt followed by the conversation.
    pub fn next_action(&self, system_prompt: &str) -> (r: AgentAction)
        requires
            self.wf(),
        ensures
            self.done() ==> r is Finished,
            !self.done() && self.pending().len() > 0 ==> (r matches AgentAction::RunTool(c) && call_view(c)
                == self.pending()[0]),
            !self.done() && self.pending().len() == 0 && self.model_calls() >= MAX_ITERATIONS ==> (r matches AgentAction::GiveUp(m)
                && m@ == give_up_text()),
            !self.done() && self.pending().len() == 0 && self.model_calls() < MAX_ITERATIONS ==> (r matches AgentAction::CallModel(ms)
                && msg_views(ms@) == seq![("system"@, system_prompt@)] + self.history()),
    {
        if self.done {
            return AgentAction::Finished;
        }
        if self.next_call < self.calls.len() {
            proof {
                assert(call_views(self.calls@).len() == self.calls@.len()) by {
                    lemma_call_views_len(self.calls@);
                }
                lemma_call_views_index(self.calls@, self.next_call as int);
            }
            return AgentAction::RunTool(copy_call(&self.calls[self.next_call]));
        }
        proof {
            lemma_call_views_len(self.calls@);
        }
        if self.model_calls >= MAX_ITERATIONS {
            let mut m = String::from_str("Agent reached maximum iterations (");
            push_decimal(&mut m, MAX_ITERATIONS as u64);
            m.append(") without a final response.");
            return AgentAction::GiveUp(m);
        }
        let mut messages: Vec<ChatMessage> = Vec::new();
        messages.push(ChatMessage::system(system_prompt));
        let mut i: usize = 0;
        while i < self.history.len()
            invariant
                i <= self.history@.len(),
                msg_views(messages@) == seq![("system"@, system_prompt@)] + msg_views(self.history@).take(i as int),
            decreases self.history.len() - i,
        {
            let ghost before = messages@;
            messages.push(copy_message(&self.history[i]));
            proof {
                assert(msg_views(messages@) =~= msg_views(before).push(msg_view(self.history@[i as int])));
                assert(msg_views(self.history@).take(i + 1) =~= msg_views(self.history@).take(i as int).push(
                    msg_view(self.history@[i as int]),
                ));
            }
            i = i + 1;
        }
        proof {
            assert(msg_views(self.history@).take(self.history@.len() as int) =~= msg_views(self.history@));
        }
        AgentAction::CallModel(messages)
    }

    /// Takes a model response: its usage is added; without tool calls its
    /// text (or `(no response)`) is the final answer and is recorded;
    /// with tool calls the calls are recorded with the text and become
    /// pending.
    pub fn on_model_response(&mut self, response: ChatResponse) -> (r: ResponseStep)
        requires
            old(self).wf(),
            !old(self).done(),
            old(self).pending().len() == 0,
            old(self).model_calls() < MAX_ITERATIONS,
        ensures
            final(self).wf(),
            final(self).model_calls() == old(self).model_calls() + 1,
            response.usage is None ==> final(self).tally_spec() == old(self).tally_spec(),
            response.usage matches Some(u) ==> final(self).tally_spec() == old(self).tally_spec().add_usage_spec(u),
            response.tool_calls@.len() == 0 ==> {
                &&& final(self).done()
                &&& final(self).pending().len() == 0
                &&& r matches ResponseStep::Final(t) && t@ == match response.text {
                    Some(x) => x@,
                    None => "(no response)"@,
                }
                &&& final(self).history() == old(self).history().push(("assistant"@, r->Final_0@))
            },
            response.tool_calls@.len() > 0 ==> {
                &&& !final(self).done()
                &&& final(self).pending() == call_views(response.tool_calls@)
                &&& final(self).history() == old(self).history().push(
                    (
                        "assistant"@,
                        tool_calls_record(
                            match response.text {
                                Some(x) => x@,
                                None => Seq::<char>::empty(),
                            },
                            call_views(response.tool_calls@),
                        ),
                    ),
                )
                &&& r matches ResponseStep::ToolCalls(chunk) && match response.text {
                    Some(x) => if x@.len() > 0 {
                        chunk matches Some(c) && c@ == x@
                    } else {
                        chunk is None
                    },
                    None => chunk is None,
                }
            },
    {
        self.model_calls = self.model_calls + 1;
        match &response.usage {
            Some(u) => self.tally.add_usage(u),
            None => {},
        }
        let ghost before = self.history@;
        if response.tool_calls.len() == 0 {
            let text = final_text(response.text);
            self.history.push(ChatMessage::assistant(text.as_str()));
            self.calls = Vec::new();
            self.next_call = 0;
            self.done = true;
            proof {
                assert(msg_views(self.history@) =~= msg_views(before).push(("assistant"@, text@)));
            }
            return ResponseStep::Final(text);
        }
        let record = match &response.text {
            Some(t) => encode_tool_calls_message(t.as_str(), &response.tool_calls),
            None => {
                proof {
                    reveal_strlit("");
                }
                encode_tool_calls_message("", &response.tool_calls)
            },
        };
        self.history.push(ChatMessage::assistant(record.as_str()));
        let chunk = match &response.text {
            Some(t) => if t.as_str().is_empty() {
                None
            } else {
                Some(t.clone())
            },
            None => None,
        };
        self.calls = response.tool_calls;
        self.next_call = 0;
        proof {
            assert(msg_views(self.history@) =~= msg_views(before).push(("assistant"@, record@)));
            assert(call_views(self.calls@).skip(0) =~= call_views(self.calls@));
        }
        ResponseStep::ToolCalls(chunk)
    }

    /// Records the result of the next pending tool call: its tool message
    /// goes into the conversation and the tallies count it.
    pub fn on_tool_result(&mut self, output: &str, status: ToolCallStatus)
        requires
            old(self).wf(),
            old(self).pending().len() > 0,
        ensures
            final(self).wf(),
            final(self).pending() == old(self).pending().drop_first(),
            final(self).history() == old(self).history().push(
                ("tool"@, tool_result_record(old(self).pending()[0].id, output@, status)),
            ),
            final(self).model_calls() == old(self).model_calls(),
            final(self).done() == old(self).done(),
            final(self).tally_spec() == old(self).tally_spec().start_call_spec().record_spec(status),
    {
        proof {
            lemma_call_views_len(self.calls@);
            assert(call_views(self.calls@).skip(self.next_call as int).len() > 0);
            assert(self.next_call < self.calls@.len());
            lemma_call_views_index(self.calls@, self.next_call as int);
        }
        let n = self.next_call;
        assert(n < self.calls.len());
        let record = encode_tool_result(self.calls[n].id.as_str(), output, &status);
        let ghost before = self.history@;
        self.history.push(ChatMessage::tool(record.as_str()));
        self.tally.start_call();
        self.tally.record(status);
        self.next_call = n + 1;
        proof {
            assert(msg_views(self.history@) =~= msg_views(before).push(("tool"@, record@)));
            assert(call_views(self.calls@).skip(self.next_call as int) =~= call_views(self.calls@).skip(
                self.next_call - 1,
            ).drop_first());
        }
    }

    /// The tallies so far.
    pub fn tally(&self) -> (r: &AgentTally)
        ensures
            *r == self.tally_spec(),
    {
        &self.tally
    }

    /// The conversation, once the run is over.
    pub fn into_history(self) -> (r: Vec<ChatMessage>)
        ensures
            msg_views(r@) == self.history(),
    {
        self.history
    }
}

/// In every state of a run, the tool calls counted equal the successes,
/// failures and refusals counted (up to saturation at `u32::MAX`).
pub proof fn law_every_call_has_one_outcome(run: AgentRun)
    requires
        run.wf(),
    ensures
        outcomes_add_up(run.tally_spec()),
{
}

/// A run never calls the model more than `MAX_ITERATIONS` times.
pub proof fn law_model_calls_bounded(run: AgentRun)
    requires
        run.wf(),
    ensures
        run.model_calls() <= MAX_ITERATIONS,
{
}

// ---------------------------------------------------------------------------
// Events of a run
// ---------------------------------------------------------------------------

/// What an agent run reports as it goes.
pub enum AgentEvent {
    /// Text from the assistant beside tool calls.
    Chunk { content: String },
    /// A tool call is starting.
    ToolCallStart { call_id: String, name: String, args: JsonValue },
    /// A tool call has finished.
    ToolCallResult {
        call_id: String,
        name: String,
        output: String,
        success: bool,
        status: ToolCallStatus,
        approval_request_id: Option<String>,
        awaiting_approval: bool,
    },
    /// A refused tool call waits for the user's answer.
    ToolApprovalRequired {
        request_id: String,
        call_id: String,
        name: String,
        args: JsonValue,
        deny_reason: String,
        suggested_allow_rule: String,
    },
    /// The final answer.
    Done {
        full_response: String,
        elapsed_ms: u64,
        tool_call_count: u32,
        tool_call_success: u32,
        tool_call_failed: u32,
        tool_call_denied: u32,
        usage: Option<TokenUsage>,
    },
    /// The run failed.
    Error { message: String },
}

/// The arguments of a tool call as a value: its JSON, or an empty object
/// when the text is not JSON.
pub fn tool_args(arguments: &str) -> (r: JsonValue)
    ensures
        json_parsed(arguments@) matches Some(v) ==> r == v,
        json_parsed(arguments@) is None ==> (r matches JsonValue::Object(es, t) && es@.len() == 0 && t@
            == "{}"@),
{
    match parse_json(arguments) {
        Ok(v) => v,
        Err(_) => JsonValue::Object(Vec::new(), String::from_str("{}")),
    }
}

/// The arguments text a started call is recorded with: a string value as
/// it is, any other value as its JSON text.
pub open spec fn recorded_arguments(args: JsonValue) -> Seq<char> {
    match args {
        JsonValue::Str(s, _) => s@,
        _ => json_text(args),
    }
}

/// The message a session keeps for an event, if any: a started call as an
/// assistant record of that one call, a finished call (not one waiting for
/// approval) as its tool record, the final answer, or the error as an
/// assistant note.
pub open spec fn persisted_spec(e: AgentEvent) -> Option<(Seq<char>, Seq<char>)> {
    match e {
        AgentEvent::ToolCallStart { call_id, name, args } => Some(
            (
                "assistant"@,
                tool_calls_record(
                    Seq::empty(),
                    seq![CallView { id: call_id@, name: name@, arguments: recorded_arguments(args) }],
                ),
            ),
        ),
        AgentEvent::ToolCallResult { call_id, output, status, awaiting_approval, .. } => if awaiting_approval {
            None
        } else {
            Some(("tool"@, tool_result_record(call_id@, output@, status)))
        },
        AgentEvent::Done { full_response, .. } => Some(("assistant"@, full_response@)),
        AgentEvent::Error { message } => Some(("assistant"@, "Error: "@ + message@)),
        _ => None,
    }
}

/// The message a session keeps for an event, if any.
pub fn persisted_message(e: &AgentEvent) -> (r: Option<ChatMessage>)
    ensures
        match r {
            Some(m) => persisted_spec(*e) == Some(msg_view(m)),
            None => persisted_spec(*e) is None,
        },
{
    match e {
        AgentEvent::ToolCallStart { call_id, name, args } => {
            let arguments = match args {
                JsonValue::Str(s, _) => s.clone(),
                _ => args.text(),
            };
            let mut calls: Vec<ToolCall> = Vec::new();
            calls.push(ToolCall { id: call_id.clone(), name: name.clone(), arguments });
            proof {
                reveal_strlit("");
                lemma_call_views_len(calls@);
                lemma_call_views_index(calls@, 0);
                assert(call_views(calls@) =~= seq![
                    CallView { id: call_id@, name: name@, arguments: recorded_arguments(*args) },
                ]);
            }
            let record = encode_tool_calls_message("", &calls);
            Some(ChatMessage::assistant(record.as_str()))
        },
        AgentEvent::ToolCallResult { call_id, output, status, awaiting_approval, .. } => {
            if *awaiting_approval {
                None
            } else {
                let record = encode_tool_result(call_id.as_str(), output.as_str(), status);
                Some(ChatMessage::tool(record.as_str()))
            }
        },
        AgentEvent::Done { full_response, .. } => Some(ChatMessage::assistant(full_response.as_str())),
        AgentEvent::Error { message } => {
            let mut note = String::from_str("Error: ");
            note.append(message.as_str());
            Some(ChatMessage::assistant(note.as_str()))
        },
        _ => None,
    }
}

} // verus!

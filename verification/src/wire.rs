use vstd::prelude::*;

use crate::env::opt_view;
use crate::json::{get_key, json_parsed, json_text, parse_json, JsonValue};
use crate::providers::{ChatMessage, ChatResponse, OpenAiProvider, OpenRouterProvider, TokenUsage, ToolCall};
use crate::session::{new_uuid, uuid_parses};
use crate::stream::{count_or_zero, UsageCounts};
use crate::stream::str_field;
use crate::text::{chars_of, digit_char, str_eq};
use crate::tools::ToolCallStatus;

verus! {

// ── JSON text ───────────────────────────────────────────────────────────────

/// The lower-case hexadecimal digit for `n < 16`.
pub open spec fn hex_char(n: int) -> char {
    if n < 10 {
        digit_char(n as nat)
    } else if n == 10 {
        'a'
    } else if n == 11 {
        'b'
    } else if n == 12 {
        'c'
    } else if n == 13 {
        'd'
    } else if n == 14 {
        'e'
    } else {
        'f'
    }
}

/// One character inside a JSON string as `serde_json` writes it: quote and
/// backslash escaped, the five short control escapes, other control
/// characters as `\u00xx`, everything else as it is.
pub open spec fn escape_char(c: char) -> Seq<char> {
    if c == '"' {
        seq!['\\', '"']
    } else if c == '\\' {
        seq!['\\', '\\']
    } else if c == '\u{8}' {
        seq!['\\', 'b']
    } else if c == '\u{c}' {
        seq!['\\', 'f']
    } else if c == '\n' {
        seq!['\\', 'n']
    } else if c == '\r' {
        seq!['\\', 'r']
    } else if c == '\t' {
        seq!['\\', 't']
    } else if (c as u32) < 0x20 {
        seq!['\\', 'u', '0', '0', hex_char((c as u32 / 16) as int), hex_char((c as u32 % 16) as int)]
    } else {
        seq![c]
    }
}

pub open spec fn escape(s: Seq<char>) -> Seq<char>
    decreases s.len(),
{
    if s.len() == 0 {
        Seq::empty()
    } else {
        escape(s.drop_last()) + escape_char(s.last())
    }
}

/// `s` as a JSON string literal.
pub open spec fn quoted(s: Seq<char>) -> Seq<char> {
    seq!['"'] + escape(s) + seq!['"']
}

fn hex_of(n: u32) -> (r: char)
    requires
        n < 16,
    ensures
        r == hex_char(n as int),
{
    if n == 0 {
        '0'
    } else if n == 1 {
        '1'
    } else if n == 2 {
        '2'
    } else if n == 3 {
        '3'
    } else if n == 4 {
        '4'
    } else if n == 5 {
        '5'
    } else if n == 6 {
        '6'
    } else if n == 7 {
        '7'
    } else if n == 8 {
        '8'
    } else if n == 9 {
        '9'
    } else if n == 10 {
        'a'
    } else if n == 11 {
        'b'
    } else if n == 12 {
        'c'
    } else if n == 13 {
        'd'
    } else if n == 14 {
        'e'
    } else {
        'f'
    }
}

fn push_escaped_char(out: &mut String, c: char)
    ensures
        final(out)@ == old(out)@ + escape_char(c),
{
    let code = c as u32;
    if c == '"' || c == '\\' {
        out.push('\\');
        out.push(c);
    } else if c == '\u{8}' {
        out.push('\\');
        out.push('b');
    } else if c == '\u{c}' {
        out.push('\\');
        out.push('f');
    } else if c == '\n' {
        out.push('\\');
        out.push('n');
    } else if c == '\r' {
        out.push('\\');
        out.push('r');
    } else if c == '\t' {
        out.push('\\');
        out.push('t');
    } else if code < 0x20 {
        out.push('\\');
        out.push('u');
        out.push('0');
        out.push('0');
        out.push(hex_of(code / 16));
        out.push(hex_of(code % 16));
    } else {
        out.push(c);
    }
    proof {
        assert(final(out)@ =~= old(out)@ + escape_char(c));
    }
}

/// Appends `s` to `out` as a JSON string literal.
pub fn push_json_string(out: &mut String, s: &str)
    ensures
        final(out)@ == old(out)@ + quoted(s@),
{
    let v = chars_of(s);
    let ghost start = out@;
    out.push('"');
    let mut i: usize = 0;
    while i < v.len()
        invariant
            i <= v@.len(),
            v@ == s@,
            out@ == start.push('"') + escape(v@.take(i as int)),
        decreases v.len() - i,
    {
        push_escaped_char(out, v[i]);
        proof {
            assert(v@.take(i + 1).drop_last() =~= v@.take(i as int));
            assert(v@.take(i + 1).last() == v@[i as int]);
        }
        i = i + 1;
    }
    out.push('"');
    proof {
        assert(v@.take(v@.len() as int) =~= v@);
        assert(out@ =~= start + quoted(s@));
    }
}

// ── Conversation history records ────────────────────────────────────────────

/// A tool call as the agent records it: `{"arguments":..,"id":..,"name":..}`.
pub open spec fn call_record(c: CallView) -> Seq<char> {
    "{\"arguments\":"@ + quoted(c.arguments) + ",\"id\":"@ + quoted(c.id) + ",\"name\":"@ + quoted(
        c.name,
    ) + "}"@
}

/// The records of `calls`, separated by commas.
pub open spec fn call_records(calls: Seq<CallView>) -> Seq<char>
    decreases calls.len(),
{
    if calls.len() == 0 {
        Seq::empty()
    } else if calls.len() == 1 {
        call_record(calls[0])
    } else {
        call_records(calls.drop_last()) + ","@ + call_record(calls.last())
    }
}

/// The assistant message the agent records for a reply with tool calls:
/// `{"content":<text>,"tool_calls":[<calls>]}`.
pub open spec fn tool_calls_record(text: Seq<char>, calls: Seq<CallView>) -> Seq<char> {
    "{\"content\":"@ + quoted(text) + ",\"tool_calls\":["@ + call_records(calls) + "]}"@
}

/// A status as it is written in records: `success`, `failed` or `denied`.
pub open spec fn status_name(s: ToolCallStatus) -> Seq<char> {
    match s {
        ToolCallStatus::Success => "success"@,
        ToolCallStatus::Failed => "failed"@,
        ToolCallStatus::Denied => "denied"@,
    }
}

/// The tool message the agent records for a call's result:
/// `{"content":<output>,"status":<status>,"tool_call_id":<id>}`.
pub open spec fn tool_result_record(call_id: Seq<char>, output: Seq<char>, status: ToolCallStatus) -> Seq<char> {
    "{\"content\":"@ + quoted(output) + ",\"status\":"@ + quoted(status_name(status))
        + ",\"tool_call_id\":"@ + quoted(call_id) + "}"@
}

fn status_text(s: &ToolCallStatus) -> (r: &'static str)
    ensures
        r@ == status_name(*s),
{
    match s {
        ToolCallStatus::Success => "success",
        ToolCallStatus::Failed => "failed",
        ToolCallStatus::Denied => "denied",
    }
}

fn push_call_record(out: &mut String, c: &ToolCall)
    ensures
        final(out)@ == old(out)@ + call_record(call_view(*c)),
{
    let ghost start = out@;
    out.append("{\"arguments\":");
    push_json_string(out, c.arguments.as_str());
    out.append(",\"id\":");
    push_json_string(out, c.id.as_str());
    out.append(",\"name\":");
    push_json_string(out, c.name.as_str());
    out.append("}");
    proof {
        assert(out@ =~= start + call_record(call_view(*c)));
    }
}

/// The assistant message recorded for a reply that asks for tool calls.
pub fn encode_tool_calls_message(text: &str, calls: &Vec<ToolCall>) -> (r: String)
    ensures
        r@ == tool_calls_record(text@, call_views(calls@)),
{
    let mut out = String::new();
    out.append("{\"content\":");
    push_json_string(&mut out, text);
    out.append(",\"tool_calls\":[");
    let ghost head = out@;
    let mut i: usize = 0;
    while i < calls.len()
        invariant
            i <= calls@.len(),
            out@ == head + call_records(call_views(calls@.take(i as int))),
        decreases calls.len() - i,
    {
        let ghost cv = call_views(calls@.take(i + 1));
        proof {
            assert(calls@.take(i + 1).drop_last() =~= calls@.take(i as int));
            assert(calls@.take(i + 1).last() == calls@[i as int]);
            assert(cv.drop_last() == call_views(calls@.take(i as int)));
            assert(cv.last() == call_view(calls@[i as int]));
            lemma_call_views_len(calls@.take(i + 1));
        }
        if i > 0 {
            out.append(",");
        }
        push_call_record(&mut out, &calls[i]);
        proof {
            if i == 0 {
                assert(call_views(calls@.take(0)) =~= Seq::<CallView>::empty());
                assert(cv.len() == 1);
                assert(cv[0] == cv.last());
            }
            assert(out@ =~= head + call_records(cv));
        }
        i = i + 1;
    }
    out.append("]}");
    proof {
        assert(calls@.take(calls@.len() as int) =~= calls@);
        assert(out@ =~= tool_calls_record(text@, call_views(calls@)));
    }
    out
}

pub proof fn lemma_call_views_len(s: Seq<ToolCall>)
    ensures
        call_views(s).len() == s.len(),
    decreases s.len(),
{
    if s.len() > 0 {
        lemma_call_views_len(s.drop_last());
    }
}

pub proof fn lemma_call_views_index(s: Seq<ToolCall>, i: int)
    requires
        0 <= i < s.len(),
    ensures
        call_views(s)[i] == call_view(s[i]),
    decreases s.len(),
{
    lemma_call_views_len(s);
    if i < s.len() - 1 {
        lemma_call_views_len(s.drop_last());
        lemma_call_views_index(s.drop_last(), i);
    }
}

/// The tool message recorded for a call's result.
pub fn encode_tool_result(call_id: &str, output: &str, status: &ToolCallStatus) -> (r: String)
    ensures
        r@ == tool_result_record(call_id@, output@, *status),
{
    let mut out = String::new();
    out.append("{\"content\":");
    push_json_string(&mut out, output);
    out.append(",\"status\":");
    push_json_string(&mut out, status_text(status));
    out.append(",\"tool_call_id\":");
    push_json_string(&mut out, call_id);
    out.append("}");
    proof {
        assert(out@ =~= tool_result_record(call_id@, output@, *status));
    }
    out
}

// ── Messages for chat completion requests ──────────────────────────────────

/// A tool call's three fields.
pub struct CallView {
    pub id: Seq<char>,
    pub name: Seq<char>,
    pub arguments: Seq<char>,
}

pub open spec fn call_view(c: ToolCall) -> CallView {
    CallView { id: c.id@, name: c.name@, arguments: c.arguments@ }
}

pub open spec fn call_views(s: Seq<ToolCall>) -> Seq<CallView>
    decreases s.len(),
{
    if s.len() == 0 {
        Seq::empty()
    } else {
        call_views(s.drop_last()).push(call_view(s.last()))
    }
}

pub open spec fn opt_calls_view(r: Option<Vec<ToolCall>>) -> Option<Seq<CallView>> {
    match r {
        Some(v) => Some(call_views(v@)),
        None => None,
    }
}

pub open spec fn str_value(v: JsonValue) -> Option<Seq<char>> {
    match v {
        JsonValue::Str(s, _) => Some(s@),
        _ => None,
    }
}

/// A tool call as serde reads `ToolCall` from a value: an object whose
/// `id`, `name` and `arguments` are strings (other fields ignored), or an
/// array of exactly three strings in that order.
pub open spec fn serde_tool_call(v: JsonValue) -> Option<CallView> {
    match v {
        JsonValue::Object(_, _) => match (
            str_field(v, "id"@),
            str_field(v, "name"@),
            str_field(v, "arguments"@),
        ) {
            (Some(i), Some(n), Some(a)) => Some(CallView { id: i, name: n, arguments: a }),
            _ => None,
        },
        JsonValue::Array(items, _) => if items@.len() == 3 {
            match (str_value(items@[0]), str_value(items@[1]), str_value(items@[2])) {
                (Some(i), Some(n), Some(a)) => Some(CallView { id: i, name: n, arguments: a }),
                _ => None,
            }
        } else {
            None
        },
        _ => None,
    }
}

/// A tool call in the looser provider form: a string `id`, and a `function`
/// with string `name` and `arguments`, or, without `function`, those two
/// beside the id.
pub open spec fn provider_tool_call(item: JsonValue) -> Option<CallView> {
    match str_field(item, "id"@) {
        None => None,
        Some(id) => match get_key(item, "function"@) {
            Some(f) => match (str_field(f, "name"@), str_field(f, "arguments"@)) {
                (Some(n), Some(a)) => Some(CallView { id, name: n, arguments: a }),
                _ => None,
            },
            None => match (str_field(item, "name"@), str_field(item, "arguments"@)) {
                (Some(n), Some(a)) => Some(CallView { id, name: n, arguments: a }),
                _ => None,
            },
        },
    }
}

/// Every item read by `f`, or `None` when one cannot be.
pub open spec fn calls_of(items: Seq<JsonValue>, f: spec_fn(JsonValue) -> Option<CallView>) -> Option<
    Seq<CallView>,
>
    decreases items.len(),
{
    if items.len() == 0 {
        Some(Seq::empty())
    } else {
        match (calls_of(items.drop_last(), f), f(items.last())) {
            (Some(p), Some(c)) => Some(p.push(c)),
            _ => None,
        }
    }
}

pub open spec fn serde_reader() -> spec_fn(JsonValue) -> Option<CallView> {
    |v: JsonValue| serde_tool_call(v)
}

pub open spec fn provider_reader() -> spec_fn(JsonValue) -> Option<CallView> {
    |v: JsonValue| provider_tool_call(v)
}

/// What serde makes of a value as `Vec<ToolCall>`: an array whose every
/// item reads as a tool call.
pub open spec fn serde_tool_calls(v: JsonValue) -> Option<Seq<CallView>> {
    match v {
        JsonValue::Array(items, _) => calls_of(items@, serde_reader()),
        _ => None,
    }
}

/// The serde reading, or else an array read item by item in the provider
/// form.
pub open spec fn provider_tool_calls(v: JsonValue) -> Option<Seq<CallView>> {
    match serde_tool_calls(v) {
        Some(c) => Some(c),
        None => match v {
            JsonValue::Array(items, _) => calls_of(items@, provider_reader()),
            _ => None,
        },
    }
}

proof fn lemma_calls_prefix_none(s: Seq<JsonValue>, k: int, f: spec_fn(JsonValue) -> Option<CallView>)
    requires
        0 <= k <= s.len(),
        calls_of(s.take(k), f) is None,
    ensures
        calls_of(s, f) is None,
    decreases s.len() - k,
{
    if k < s.len() {
        assert(s.take(k + 1).drop_last() =~= s.take(k));
        lemma_calls_prefix_none(s, k + 1, f);
    } else {
        assert(s.take(k) =~= s);
    }
}

/// A tool call in a request: `id`, `type` and the function's name and
/// arguments.
pub struct ApiToolCallFunction {
    pub name: String,
    pub arguments: String,
}

pub struct ApiToolCall {
    pub id: Option<String>,
    pub kind: Option<String>,
    pub function: ApiToolCallFunction,
}

/// A message in a chat completion request.
pub struct ApiMessage {
    pub role: String,
    pub content: Option<String>,
    pub tool_call_id: Option<String>,
    pub tool_calls: Option<Vec<ApiToolCall>>,
}

pub struct ApiCallView {
    pub id: Option<Seq<char>>,
    pub kind: Option<Seq<char>>,
    pub name: Seq<char>,
    pub arguments: Seq<char>,
}

pub struct ApiMessageView {
    pub role: Seq<char>,
    pub content: Option<Seq<char>>,
    pub tool_call_id: Option<Seq<char>>,
    pub tool_calls: Option<Seq<ApiCallView>>,
}

pub open spec fn api_call_view(c: ApiToolCall) -> ApiCallView {
    ApiCallView {
        id: opt_view(c.id),
        kind: opt_view(c.kind),
        name: c.function.name@,
        arguments: c.function.arguments@,
    }
}

pub open spec fn api_call_views(s: Seq<ApiToolCall>) -> Seq<ApiCallView>
    decreases s.len(),
{
    if s.len() == 0 {
        Seq::empty()
    } else {
        api_call_views(s.drop_last()).push(api_call_view(s.last()))
    }
}

pub open spec fn api_view(m: ApiMessage) -> ApiMessageView {
    ApiMessageView {
        role: m.role@,
        content: opt_view(m.content),
        tool_call_id: opt_view(m.tool_call_id),
        tool_calls: match m.tool_calls {
            Some(v) => Some(api_call_views(v@)),
            None => None,
        },
    }
}

/// A tool call as a request carries it: with its id and type `function`.
pub open spec fn wire_call(c: CallView) -> ApiCallView {
    ApiCallView { id: Some(c.id), kind: Some("function"@), name: c.name, arguments: c.arguments }
}

pub open spec fn wire_calls(s: Seq<CallView>) -> Seq<ApiCallView>
    decreases s.len(),
{
    if s.len() == 0 {
        Seq::empty()
    } else {
        wire_calls(s.drop_last()).push(wire_call(s.last()))
    }
}

pub open spec fn calls_message(content: Option<Seq<char>>, calls: Seq<CallView>) -> ApiMessageView {
    ApiMessageView {
        role: "assistant"@,
        content,
        tool_call_id: None,
        tool_calls: Some(wire_calls(calls)),
    }
}

pub open spec fn plain_message(m: ChatMessage) -> ApiMessageView {
    ApiMessageView { role: m.role@, content: Some(m.content@), tool_call_id: None, tool_calls: None }
}

/// A recorded tool result: its `content` string, else its `result` (a
/// string as it is, anything else as JSON text), else the whole record.
pub open spec fn tool_record_message(raw: Seq<char>, value: JsonValue) -> ApiMessageView {
    ApiMessageView {
        role: "tool"@,
        content: Some(
            match str_field(value, "content"@) {
                Some(c) => c,
                None => match get_key(value, "result"@) {
                    Some(r) => match str_value(r) {
                        Some(t) => t,
                        None => json_text(r),
                    },
                    None => raw,
                },
            },
        ),
        tool_call_id: str_field(value, "tool_call_id"@),
        tool_calls: None,
    }
}

/// A recorded assistant reply with tool calls, as the OpenAI provider reads
/// it: the calls under `tool_calls` (or `__tool_calls`) with the text under
/// `content` (or `text`), or a bare array of calls.
pub open spec fn openai_assistant(value: JsonValue) -> Option<ApiMessageView> {
    let listed = match get_key(value, "tool_calls"@) {
        Some(t) => Some(t),
        None => get_key(value, "__tool_calls"@),
    };
    let content = match get_key(value, "content"@) {
        Some(c) => str_value(c),
        None => match get_key(value, "text"@) {
            Some(c) => str_value(c),
            None => None,
        },
    };
    let from_object = match listed {
        Some(t) => match provider_tool_calls(t) {
            Some(calls) => Some(calls_message(content, calls)),
            None => None,
        },
        None => None,
    };
    if from_object is Some {
        from_object
    } else if value is Array {
        match provider_tool_calls(value) {
            Some(calls) => Some(calls_message(None, calls)),
            None => None,
        }
    } else {
        None
    }
}

/// A message as the OpenAI provider sends it, given what its content parses
/// to as JSON.
pub open spec fn openai_message(m: ChatMessage, parsed: Option<JsonValue>) -> ApiMessageView {
    if m.role@ == "assistant"@ && parsed is Some && openai_assistant(parsed->0) is Some {
        openai_assistant(parsed->0)->0
    } else if m.role@ == "tool"@ && parsed is Some {
        tool_record_message(m.content@, parsed->0)
    } else {
        plain_message(m)
    }
}

/// A recorded assistant reply as the OpenRouter provider reads it: calls
/// under `tool_calls` as serde reads them, with the `content` text, or a
/// bare array of calls.
pub open spec fn openrouter_assistant(value: JsonValue) -> Option<ApiMessageView> {
    let from_object = match get_key(value, "tool_calls"@) {
        Some(t) => match serde_tool_calls(t) {
            Some(calls) => Some(
                calls_message(
                    match get_key(value, "content"@) {
                        Some(c) => str_value(c),
                        None => None,
                    },
                    calls,
                ),
            ),
            None => None,
        },
        None => None,
    };
    if from_object is Some {
        from_object
    } else if value is Array {
        match serde_tool_calls(value) {
            Some(calls) => Some(calls_message(None, calls)),
            None => None,
        }
    } else {
        None
    }
}

pub open spec fn openrouter_message(m: ChatMessage, parsed: Option<JsonValue>) -> ApiMessageView {
    if m.role@ == "assistant"@ && parsed is Some && openrouter_assistant(parsed->0) is Some {
        openrouter_assistant(parsed->0)->0
    } else if m.role@ == "tool"@ && parsed is Some {
        tool_record_message(m.content@, parsed->0)
    } else {
        plain_message(m)
    }
}

fn str_value_of(v: &JsonValue) -> (r: Option<String>)
    ensures
        opt_view(r) == str_value(*v),
{
    match v {
        JsonValue::Str(s, _) => Some(s.clone()),
        _ => None,
    }
}

fn str_field_of(v: &JsonValue, key: &str) -> (r: Option<String>)
    ensures
        opt_view(r) == str_field(*v, key@),
{
    match v.get(key) {
        Some(x) => str_value_of(x),
        None => None,
    }
}

fn serde_tool_call_of(v: &JsonValue) -> (r: Option<ToolCall>)
    ensures
        match r {
            Some(c) => serde_tool_call(*v) == Some(call_view(c)),
            None => serde_tool_call(*v) is None,
        },
{
    match v {
        JsonValue::Object(_, _) => {
            let id = str_field_of(v, "id");
            let name = str_field_of(v, "name");
            let arguments = str_field_of(v, "arguments");
            match (id, name, arguments) {
                (Some(id), Some(name), Some(arguments)) => Some(ToolCall { id, name, arguments }),
                _ => None,
            }
        },
        JsonValue::Array(items, _) => {
            if items.len() != 3 {
                return None;
            }
            let id = str_value_of(&items[0]);
            let name = str_value_of(&items[1]);
            let arguments = str_value_of(&items[2]);
            match (id, name, arguments) {
                (Some(id), Some(name), Some(arguments)) => Some(ToolCall { id, name, arguments }),
                _ => None,
            }
        },
        _ => None,
    }
}

fn provider_tool_call_of(item: &JsonValue) -> (r: Option<ToolCall>)
    ensures
        match r {
            Some(c) => provider_tool_call(*item) == Some(call_view(c)),
            None => provider_tool_call(*item) is None,
        },
{
    let id = match str_field_of(item, "id") {
        Some(id) => id,
        None => return None,
    };
    let (name, arguments) = match item.get("function") {
        Some(f) => (str_field_of(f, "name"), str_field_of(f, "arguments")),
        None => (str_field_of(item, "name"), str_field_of(item, "arguments")),
    };
    match (name, arguments) {
        (Some(name), Some(arguments)) => Some(ToolCall { id, name, arguments }),
        _ => None,
    }
}

fn serde_tool_calls_of(v: &JsonValue) -> (r: Option<Vec<ToolCall>>)
    ensures
        opt_calls_view(r) == serde_tool_calls(*v),
{
    let items = match v {
        JsonValue::Array(items, _) => items,
        _ => return None,
    };
    let mut out: Vec<ToolCall> = Vec::new();
    let mut i: usize = 0;
    while i < items.len()
        invariant
            i <= items@.len(),
            *v matches JsonValue::Array(its, _) && its@ == items@,
            calls_of(items@.take(i as int), serde_reader()) == Some(call_views(out@)),
        decreases items.len() - i,
    {
        proof {
            assert(items@.take(i + 1).drop_last() =~= items@.take(i as int));
            assert(items@.take(i + 1).last() == items@[i as int]);
        }
        match serde_tool_call_of(&items[i]) {
            Some(c) => {
                let ghost before = out@;
                out.push(c);
                proof {
                    assert(out@.drop_last() =~= before);
                }
            },
            None => {
                proof {
                    lemma_calls_prefix_none(items@, i + 1, serde_reader());
                }
                return None;
            },
        }
        i = i + 1;
    }
    proof {
        assert(items@.take(items@.len() as int) =~= items@);
    }
    Some(out)
}

fn provider_calls_of(items: &Vec<JsonValue>) -> (r: Option<Vec<ToolCall>>)
    ensures
        opt_calls_view(r) == calls_of(items@, provider_reader()),
{
    let mut out: Vec<ToolCall> = Vec::new();
    let mut i: usize = 0;
    while i < items.len()
        invariant
            i <= items@.len(),
            calls_of(items@.take(i as int), provider_reader()) == Some(call_views(out@)),
        decreases items.len() - i,
    {
        proof {
            assert(items@.take(i + 1).drop_last() =~= items@.take(i as int));
            assert(items@.take(i + 1).last() == items@[i as int]);
        }
        match provider_tool_call_of(&items[i]) {
            Some(c) => {
                let ghost before = out@;
                out.push(c);
                proof {
                    assert(out@.drop_last() =~= before);
                }
            },
            None => {
                proof {
                    lemma_calls_prefix_none(items@, i + 1, provider_reader());
                }
                return None;
            },
        }
        i = i + 1;
    }
    proof {
        assert(items@.take(items@.len() as int) =~= items@);
    }
    Some(out)
}

/// Request tool calls for `calls`, each with its id and type `function`.
fn tool_calls_to_api(calls: Vec<ToolCall>) -> (r: Vec<ApiToolCall>)
    ensures
        api_call_views(r@) == wire_calls(call_views(calls@)),
{
    let mut out: Vec<ApiToolCall> = Vec::new();
    let mut i: usize = 0;
    while i < calls.len()
        invariant
            i <= calls@.len(),
            api_call_views(out@) == wire_calls(call_views(calls@.take(i as int))),
        decreases calls.len() - i,
    {
        let c = &calls[i];
        let ghost before = out@;
        out.push(
            ApiToolCall {
                id: Some(c.id.clone()),
                kind: Some(String::from_str("function")),
                function: ApiToolCallFunction { name: c.name.clone(), arguments: c.arguments.clone() },
            },
        );
        proof {
            assert(calls@.take(i + 1).drop_last() =~= calls@.take(i as int));
            assert(calls@.take(i + 1).last() == calls@[i as int]);
            assert(out@.drop_last() =~= before);
            let cv = call_views(calls@.take(i + 1));
            assert(cv.drop_last() =~= call_views(calls@.take(i as int)));
            assert(cv.last() == call_view(calls@[i as int]));
            assert(api_call_view(out@.last()) == wire_call(call_view(calls@[i as int])));
        }
        i = i + 1;
    }
    proof {
        assert(calls@.take(calls@.len() as int) =~= calls@);
    }
    out
}

fn calls_message_of(content: Option<String>, calls: Vec<ToolCall>) -> (r: ApiMessage)
    ensures
        api_view(r) == calls_message(opt_view(content), call_views(calls@)),
{
    ApiMessage {
        role: String::from_str("assistant"),
        content,
        tool_call_id: None,
        tool_calls: Some(tool_calls_to_api(calls)),
    }
}

fn plain_message_of(m: &ChatMessage) -> (r: ApiMessage)
    ensures
        api_view(r) == plain_message(*m),
{
    ApiMessage { role: m.role.clone(), content: Some(m.content.clone()), tool_call_id: None, tool_calls: None }
}

fn tool_record_message_of(raw: &str, value: &JsonValue) -> (r: ApiMessage)
    ensures
        api_view(r) == tool_record_message(raw@, *value),
{
    let content = match str_field_of(value, "content") {
        Some(c) => c,
        None => match value.get("result") {
            Some(r) => match str_value_of(r) {
                Some(t) => t,
                None => r.text(),
            },
            None => String::from_str(raw),
        },
    };
    ApiMessage {
        role: String::from_str("tool"),
        content: Some(content),
        tool_call_id: str_field_of(value, "tool_call_id"),
        tool_calls: None,
    }
}

fn is_array(v: &JsonValue) -> (r: bool)
    ensures
        r == (*v is Array),
{
    match v {
        JsonValue::Array(_, _) => true,
        _ => false,
    }
}

impl OpenAiProvider {
    /// Reads recorded tool calls: as serde reads `Vec<ToolCall>`, or else
    /// item by item in the provider form.
    pub fn parse_provider_tool_calls(value: &JsonValue) -> (r: Option<Vec<ToolCall>>)
        ensures
            opt_calls_view(r) == provider_tool_calls(*value),
    {
        match serde_tool_calls_of(value) {
            Some(calls) => Some(calls),
            None => match value {
                JsonValue::Array(items, _) => provider_calls_of(items),
                _ => None,
            },
        }
    }

    fn assistant_message_of(value: &JsonValue) -> (r: Option<ApiMessage>)
        ensures
            match r {
                Some(m) => openai_assistant(*value) == Some(api_view(m)),
                None => openai_assistant(*value) is None,
            },
    {
        let listed = match value.get("tool_calls") {
            Some(t) => Some(t),
            None => value.get("__tool_calls"),
        };
        match listed {
            Some(t) => match Self::parse_provider_tool_calls(t) {
                Some(calls) => {
                    let content = match value.get("content") {
                        Some(c) => str_value_of(c),
                        None => match value.get("text") {
                            Some(c) => str_value_of(c),
                            None => None,
                        },
                    };
                    return Some(calls_message_of(content, calls));
                },
                None => {},
            },
            None => {},
        }
        if is_array(value) {
            match Self::parse_provider_tool_calls(value) {
                Some(calls) => Some(calls_message_of(None, calls)),
                None => None,
            }
        } else {
            None
        }
    }

    /// The request message for `m`, given what its content parses to.
    pub fn convert_parsed_message(m: &ChatMessage, parsed: &Option<JsonValue>) -> (r: ApiMessage)
        ensures
            api_view(r) == openai_message(*m, *parsed),
    {
        match parsed {
            Some(value) => {
                if str_eq(m.role.as_str(), "assistant") {
                    match Self::assistant_message_of(value) {
                        Some(msg) => return msg,
                        None => {},
                    }
                }
                if str_eq(m.role.as_str(), "tool") {
                    proof {
                        reveal_strlit("assistant");
                        reveal_strlit("tool");
                    }
                    return tool_record_message_of(m.content.as_str(), value);
                }
                plain_message_of(m)
            },
            None => plain_message_of(m),
        }
    }

    /// The request messages for a conversation: assistant records of tool
    /// calls and tool results are read back; the rest go as they are.
    pub fn convert_messages(messages: &Vec<ChatMessage>) -> (r: Vec<ApiMessage>)
        ensures
            r@.len() == messages@.len(),
            forall|i: int|
                0 <= i < r@.len() ==> api_view(#[trigger] r@[i]) == openai_message(
                    messages@[i],
                    json_parsed(messages@[i].content@),
                ),
    {
        let mut out: Vec<ApiMessage> = Vec::new();
        let mut i: usize = 0;
        while i < messages.len()
            invariant
                i <= messages@.len(),
                out@.len() == i,
                forall|k: int|
                    0 <= k < i ==> api_view(#[trigger] out@[k]) == openai_message(
                        messages@[k],
                        json_parsed(messages@[k].content@),
                    ),
            decreases messages.len() - i,
        {
            let m = &messages[i];
            let parsed = match parse_json(m.content.as_str()) {
                Ok(v) => Some(v),
                Err(_) => None,
            };
            out.push(Self::convert_parsed_message(m, &parsed));
            i = i + 1;
        }
        out
    }
}

impl OpenRouterProvider {
    fn assistant_message_of(value: &JsonValue) -> (r: Option<ApiMessage>)
        ensures
            match r {
                Some(m) => openrouter_assistant(*value) == Some(api_view(m)),
                None => openrouter_assistant(*value) is None,
            },
    {
        match value.get("tool_calls") {
            Some(t) => match serde_tool_calls_of(t) {
                Some(calls) => {
                    let content = match value.get("content") {
                        Some(c) => str_value_of(c),
                        None => None,
                    };
                    return Some(calls_message_of(content, calls));
                },
                None => {},
            },
            None => {},
        }
        if is_array(value) {
            match serde_tool_calls_of(value) {
                Some(calls) => Some(calls_message_of(None, calls)),
                None => None,
            }
        } else {
            None
        }
    }

    /// The request message for `m`, given what its content parses to.
    pub fn convert_parsed_message(m: &ChatMessage, parsed: &Option<JsonValue>) -> (r: ApiMessage)
        ensures
            api_view(r) == openrouter_message(*m, *parsed),
    {
        match parsed {
            Some(value) => {
                if str_eq(m.role.as_str(), "assistant") {
                    match Self::assistant_message_of(value) {
                        Some(msg) => return msg,
                        None => {},
                    }
                }
                if str_eq(m.role.as_str(), "tool") {
                    proof {
                        reveal_strlit("assistant");
                        reveal_strlit("tool");
                    }
                    return tool_record_message_of(m.content.as_str(), value);
                }
                plain_message_of(m)
            },
            None => plain_message_of(m),
        }
    }

    /// The request messages for a conversation, as `convert_parsed_message`
    /// makes each.
    pub fn convert_messages(messages: &Vec<ChatMessage>) -> (r: Vec<ApiMessage>)
        ensures
            r@.len() == messages@.len(),
            forall|i: int|
                0 <= i < r@.len() ==> api_view(#[trigger] r@[i]) == openrouter_message(
                    messages@[i],
                    json_parsed(messages@[i].content@),
                ),
    {
        let mut out: Vec<ApiMessage> = Vec::new();
        let mut i: usize = 0;
        while i < messages.len()
            invariant
                i <= messages@.len(),
                out@.len() == i,
                forall|k: int|
                    0 <= k < i ==> api_view(#[trigger] out@[k]) == openrouter_message(
                        messages@[k],
                        json_parsed(messages@[k].content@),
                    ),
            decreases messages.len() - i,
        {
            let m = &messages[i];
            let parsed = match parse_json(m.content.as_str()) {
                Ok(v) => Some(v),
                Err(_) => None,
            };
            out.push(Self::convert_parsed_message(m, &parsed));
            i = i + 1;
        }
        out
    }
}

// ── Responses ───────────────────────────────────────────────────────────────

/// The message of a non-streamed response's first choice.
pub struct ApiResponseMessage {
    pub content: Option<String>,
    pub tool_calls: Option<Vec<ApiToolCall>>,
}

/// A response tool call taken over: its name and arguments, its id or a
/// fresh UUID.
pub open spec fn response_call(a: ApiToolCall, c: ToolCall) -> bool {
    &&& c.name@ == a.function.name@
    &&& c.arguments@ == a.function.arguments@
    &&& match a.id {
        Some(i) => c.id@ == i@,
        None => uuid_parses(c.id@),
    }
}

/// Reported counts with missing ones read as zero.
pub open spec fn usage_taken(u: UsageCounts, t: TokenUsage) -> bool {
    &&& t.prompt_tokens == count_or_zero(u.prompt_tokens)
    &&& t.completion_tokens == count_or_zero(u.completion_tokens)
    &&& t.total_tokens == count_or_zero(u.total_tokens)
}

pub open spec fn listed_calls(m: ApiResponseMessage) -> Seq<ApiToolCall> {
    match m.tool_calls {
        Some(v) => v@,
        None => Seq::empty(),
    }
}

fn token_usage_of(u: Option<UsageCounts>) -> (r: Option<TokenUsage>)
    ensures
        match u {
            Some(x) => r matches Some(t) && usage_taken(x, t),
            None => r is None,
        },
{
    match u {
        Some(x) => Some(
            TokenUsage {
                prompt_tokens: match x.prompt_tokens {
                    Some(n) => n,
                    None => 0,
                },
                completion_tokens: match x.completion_tokens {
                    Some(n) => n,
                    None => 0,
                },
                total_tokens: match x.total_tokens {
                    Some(n) => n,
                    None => 0,
                },
            },
        ),
        None => None,
    }
}

fn response_from(message: ApiResponseMessage, usage: Option<UsageCounts>) -> (r: ChatResponse)
    ensures
        opt_view(r.text) == opt_view(message.content),
        r.tool_calls@.len() == listed_calls(message).len(),
        forall|k: int|
            0 <= k < r.tool_calls@.len() ==> response_call(
                #[trigger] listed_calls(message)[k],
                r.tool_calls@[k],
            ),
        match usage {
            Some(u) => r.usage matches Some(t) && usage_taken(u, t),
            None => r.usage is None,
        },
{
    let ghost listed = listed_calls(message);
    let mut calls: Vec<ToolCall> = Vec::new();
    match &message.tool_calls {
        Some(items) => {
            let mut i: usize = 0;
            while i < items.len()
                invariant
                    i <= items@.len(),
                    items@ == listed,
                    calls@.len() == i,
                    forall|k: int| 0 <= k < i ==> response_call(#[trigger] listed[k], calls@[k]),
                decreases items.len() - i,
            {
                let a = &items[i];
                let id = match &a.id {
                    Some(x) => x.clone(),
                    None => new_uuid(),
                };
                calls.push(
                    ToolCall { id, name: a.function.name.clone(), arguments: a.function.arguments.clone() },
                );
                i = i + 1;
            }
        },
        None => {},
    }
    ChatResponse { text: message.content, tool_calls: calls, usage: token_usage_of(usage) }
}

impl OpenAiProvider {
    /// The response for a non-streamed reply: its text, its tool calls (a
    /// call without an id gets a fresh UUID) and its usage.
    pub fn parse_response(message: ApiResponseMessage, usage: Option<UsageCounts>) -> (r: ChatResponse)
        ensures
            opt_view(r.text) == opt_view(message.content),
            r.tool_calls@.len() == listed_calls(message).len(),
            forall|k: int|
                0 <= k < r.tool_calls@.len() ==> response_call(
                    #[trigger] listed_calls(message)[k],
                    r.tool_calls@[k],
                ),
            match usage {
                Some(u) => r.usage matches Some(t) && usage_taken(u, t),
                None => r.usage is None,
            },
    {
        response_from(message, usage)
    }
}

impl OpenRouterProvider {
    /// The response for a reply: its text, its tool calls (a call without
    /// an id gets a fresh UUID) and its usage.
    pub fn parse_response(message: ApiResponseMessage, usage: Option<UsageCounts>) -> (r: ChatResponse)
        ensures
            opt_view(r.text) == opt_view(message.content),
            r.tool_calls@.len() == listed_calls(message).len(),
            forall|k: int|
                0 <= k < r.tool_calls@.len() ==> response_call(
                    #[trigger] listed_calls(message)[k],
                    r.tool_calls@[k],
                ),
            match usage {
                Some(u) => r.usage matches Some(t) && usage_taken(u, t),
                None => r.usage is None,
            },
    {
        response_from(message, usage)
    }
}

} // verus!

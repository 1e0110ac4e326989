use vstd::prelude::*;

use crate::json::{get_key, json_u64, JsonValue};
use crate::text::{chars_of, cviews, decimal_text, join, lines, lines_of, trim, utf8_len, utf8_width, views};

verus! {

pub const DEFAULT_OUTPUT_LINES: usize = 120;

pub const MAX_OUTPUT_LINES: usize = 2000;

/// Where a background process stands.
#[derive(Debug, Clone, Copy, PartialEq, Eq, Structural)]
pub enum ProcessStatus {
    Running,
    Finished,
    Failed,
    Killed,
}

impl ProcessStatus {
    pub open spec fn text(self) -> Seq<char> {
        match self {
            ProcessStatus::Running => "running"@,
            ProcessStatus::Finished => "finished"@,
            ProcessStatus::Failed => "failed"@,
            ProcessStatus::Killed => "killed"@,
        }
    }

    pub fn as_str(self) -> (r: &'static str)
        ensures
            r@ == self.text(),
    {
        match self {
            ProcessStatus::Running => "running",
            ProcessStatus::Finished => "finished",
            ProcessStatus::Failed => "failed",
            ProcessStatus::Killed => "killed",
        }
    }
}

/// What is known of a background process.
#[derive(Debug, Clone, Copy)]
pub struct ProcessState {
    pub status: ProcessStatus,
    pub exit_code: Option<i32>,
    pub started_at_unix_secs: u64,
    pub finished_at_unix_secs: Option<u64>,
    pub kill_requested: bool,
}

impl ProcessState {
    /// A process started at `now`.
    pub fn running(now: u64) -> (r: Self)
        ensures
            r.status == ProcessStatus::Running,
            r.exit_code is None,
            r.started_at_unix_secs == now,
            r.finished_at_unix_secs is None,
            !r.kill_requested,
    {
        ProcessState {
            status: ProcessStatus::Running,
            exit_code: None,
            started_at_unix_secs: now,
            finished_at_unix_secs: None,
            kill_requested: false,
        }
    }

    /// Takes in the exit of a running process at `now`, given its exit code
    /// and whether it succeeded: killed when a kill was asked for, else
    /// finished or failed. A process that already ended keeps its state.
    pub fn settle(&mut self, exit_code: Option<i32>, success: bool, now: u64)
        ensures
            old(self).status == ProcessStatus::Running ==> {
                &&& final(self).exit_code == exit_code
                &&& final(self).finished_at_unix_secs == Some(now)
                &&& final(self).status == if old(self).kill_requested {
                    ProcessStatus::Killed
                } else if success {
                    ProcessStatus::Finished
                } else {
                    ProcessStatus::Failed
                }
                &&& final(self).started_at_unix_secs == old(self).started_at_unix_secs
                &&& final(self).kill_requested == old(self).kill_requested
            },
            old(self).status != ProcessStatus::Running ==> *final(self) == *old(self),
    {
        if self.status == ProcessStatus::Running {
            self.exit_code = exit_code;
            self.finished_at_unix_secs = Some(now);
            self.status = if self.kill_requested {
                ProcessStatus::Killed
            } else if success {
                ProcessStatus::Finished
            } else {
                ProcessStatus::Failed
            };
        }
    }

    /// Whether the process is kept at `now`: while it runs, and until
    /// `retention_secs` have passed since it ended.
    pub fn retained(&self, now: u64, retention_secs: u64) -> (r: bool)
        ensures
            r == (self.status == ProcessStatus::Running || match self.finished_at_unix_secs {
                None => true,
                Some(f) => (if now >= f {
                    now - f
                } else {
                    0
                }) < retention_secs,
            }),
    {
        if self.status == ProcessStatus::Running {
            return true;
        }
        match self.finished_at_unix_secs {
            None => true,
            Some(f) => now.saturating_sub(f) < retention_secs,
        }
    }
}

/// The actions of the process tool.
#[derive(Debug)]
pub enum ProcessAction {
    Spawn,
    List,
    Status,
    Output,
    Wait,
    Kill,
    /// Any other action, with its name.
    Unknown(String),
}

pub open spec fn str_arg(args: JsonValue, key: Seq<char>) -> Option<Seq<char>> {
    match get_key(args, key) {
        Some(JsonValue::Str(s, _)) => Some(s@),
        _ => None,
    }
}

/// The action a call names.
pub open spec fn action_of(args: JsonValue) -> Result<Seq<char>, Seq<char>> {
    match str_arg(args, "action"@) {
        None => Err("Missing 'action' parameter"@),
        Some(a) => if trim(a).len() == 0 {
            Err("'action' parameter must not be empty"@)
        } else {
            Ok(trim(a))
        },
    }
}

pub open spec fn action_matches(r: ProcessAction, name: Seq<char>) -> bool {
    if name == "spawn"@ {
        r is Spawn
    } else if name == "list"@ {
        r is List
    } else if name == "status"@ {
        r is Status
    } else if name == "output"@ {
        r is Output
    } else if name == "wait"@ {
        r is Wait
    } else if name == "kill"@ {
        r is Kill
    } else {
        r matches ProcessAction::Unknown(o) && o@ == name
    }
}

fn trimmed_str_arg(args: &JsonValue, key: &str) -> (r: Option<String>)
    ensures
        match str_arg(*args, key@) {
            Some(s) => r matches Some(x) && x@ == trim(s),
            None => r is None,
        },
{
    match args.get(key) {
        Some(v) => match v.as_str() {
            Some(s) => Some(crate::text::trim_str(s.as_str())),
            None => None,
        },
        None => None,
    }
}

/// Reads the `action` argument.
pub fn parse_action(args: &JsonValue) -> (r: Result<ProcessAction, String>)
    ensures
        match action_of(*args) {
            Err(m) => r matches Err(e) && e@ == m,
            Ok(name) => r matches Ok(a) && action_matches(a, name),
        },
{
    let a = match trimmed_str_arg(args, "action") {
        Some(a) => a,
        None => {
            return Err(String::from_str("Missing 'action' parameter"));
        },
    };
    if a.as_str().is_empty() {
        return Err(String::from_str("'action' parameter must not be empty"));
    }
    if crate::text::str_eq(a.as_str(), "spawn") {
        Ok(ProcessAction::Spawn)
    } else if crate::text::str_eq(a.as_str(), "list") {
        Ok(ProcessAction::List)
    } else if crate::text::str_eq(a.as_str(), "status") {
        Ok(ProcessAction::Status)
    } else if crate::text::str_eq(a.as_str(), "output") {
        Ok(ProcessAction::Output)
    } else if crate::text::str_eq(a.as_str(), "wait") {
        Ok(ProcessAction::Wait)
    } else if crate::text::str_eq(a.as_str(), "kill") {
        Ok(ProcessAction::Kill)
    } else {
        Ok(ProcessAction::Unknown(a))
    }
}

/// The error for an action the tool does not know.
pub fn unknown_action_error(action: &str) -> (r: String)
    ensures
        r@ == "Unknown action '"@ + action@ + "'. Expected: spawn, list, status, output, wait, kill"@,
{
    let mut m = String::from_str("Unknown action '");
    m.append(action);
    m.append("'. Expected: spawn, list, status, output, wait, kill");
    m
}

/// Reads the `id` argument of `action`.
pub fn parse_id(args: &JsonValue, action: &str) -> (r: Result<String, String>)
    ensures
        match str_arg(*args, "id"@) {
            None => r matches Err(e) && e@ == "Missing 'id' parameter for '"@ + action@ + "' action"@,
            Some(id) => if trim(id).len() == 0 {
                r matches Err(e) && e@ == "'id' parameter must not be empty"@
            } else {
                r matches Ok(x) && x@ == trim(id)
            },
        },
{
    let id = match trimmed_str_arg(args, "id") {
        Some(i) => i,
        None => {
            let mut m = String::from_str("Missing 'id' parameter for '");
            m.append(action);
            m.append("' action");
            return Err(m);
        },
    };
    if id.as_str().is_empty() {
        return Err(String::from_str("'id' parameter must not be empty"));
    }
    Ok(id)
}

/// Reads an optional integer argument.
pub fn parse_optional_u64(args: &JsonValue, key: &str) -> (r: Result<Option<u64>, String>)
    ensures
        match get_key(*args, key@) {
            None => r matches Ok(None),
            Some(v) => match json_u64(v) {
                Some(n) => r matches Ok(Some(x)) && x == n,
                None => r matches Err(e) && e@ == "'"@ + key@ + "' must be an integer"@,
            },
        },
{
    match args.get(key) {
        None => Ok(None),
        Some(v) => match v.as_u64() {
            Some(n) => Ok(Some(n)),
            None => {
                let mut m = String::from_str("'");
                m.append(key);
                m.append("' must be an integer");
                Err(m)
            },
        },
    }
}

/// The command of a `spawn` call.
pub fn spawn_command(args: &JsonValue) -> (r: Result<String, String>)
    ensures
        match str_arg(*args, "command"@) {
            None => r matches Err(e) && e@ == "Missing 'command' parameter for 'spawn' action"@,
            Some(c) => if trim(c).len() == 0 {
                r matches Err(e) && e@ == "'command' must not be empty"@
            } else {
                r matches Ok(x) && x@ == trim(c)
            },
        },
{
    let c = match trimmed_str_arg(args, "command") {
        Some(c) => c,
        None => {
            return Err(String::from_str("Missing 'command' parameter for 'spawn' action"));
        },
    };
    if c.as_str().is_empty() {
        return Err(String::from_str("'command' must not be empty"));
    }
    Ok(c)
}

/// Refuses a new process when `running` processes already fill the limit.
pub fn capacity_error(running: usize, max_concurrent: usize) -> (r: Option<String>)
    ensures
        running >= max_concurrent ==> (r matches Some(e) && e@ == "Maximum concurrent processes ("@
            + decimal_text(max_concurrent as nat) + ") reached"@),
        running < max_concurrent ==> r is None,
{
    if running >= max_concurrent {
        let mut m = String::from_str("Maximum concurrent processes (");
        crate::text::push_decimal(&mut m, max_concurrent as u64);
        m.append(") reached");
        Some(m)
    } else {
        None
    }
}

/// The number of output lines asked for: 120 by default, at most 2000.
pub fn output_lines(args: &JsonValue) -> (r: Result<usize, String>)
    ensures
        match get_key(*args, "lines"@) {
            Some(v) => match json_u64(v) {
                None => r matches Err(e) && e@ == "'"@ + "lines"@ + "' must be an integer"@,
                Some(n) => if n as usize == 0 {
                    r matches Err(e) && e@ == "'lines' must be greater than 0"@
                } else {
                    r matches Ok(x) && x == if (n as usize) < MAX_OUTPUT_LINES {
                        n as usize
                    } else {
                        MAX_OUTPUT_LINES
                    }
                },
            },
            None => r matches Ok(x) && x == DEFAULT_OUTPUT_LINES,
        },
{
    let lines = match parse_optional_u64(args, "lines") {
        Ok(Some(n)) => n as usize,
        Ok(None) => DEFAULT_OUTPUT_LINES,
        Err(e) => {
            return Err(e);
        },
    };
    if lines == 0 {
        return Err(String::from_str("'lines' must be greater than 0"));
    }
    Ok(
        if lines < MAX_OUTPUT_LINES {
            lines
        } else {
            MAX_OUTPUT_LINES
        },
    )
}

/// How long to wait: the requested seconds (or the default), at most the
/// configured maximum.
pub fn wait_secs(args: &JsonValue, default_secs: u64, max_secs: u64) -> (r: Result<u64, String>)
    ensures
        ({
            let requested = match get_key(*args, "max_wait_secs"@) {
                Some(v) => json_u64(v),
                None => Some(default_secs),
            };
            match requested {
                None => r matches Err(e) && e@ == "'"@ + "max_wait_secs"@ + "' must be an integer"@,
                Some(n) => if n == 0 {
                    r matches Err(e) && e@ == "'max_wait_secs' must be greater than 0"@
                } else {
                    r matches Ok(x) && x == if n < max_secs {
                        n
                    } else {
                        max_secs
                    }
                },
            }
        }),
{
    let requested = match parse_optional_u64(args, "max_wait_secs") {
        Ok(Some(n)) => n,
        Ok(None) => default_secs,
        Err(e) => {
            return Err(e);
        },
    };
    if requested == 0 {
        return Err(String::from_str("'max_wait_secs' must be greater than 0"));
    }
    Ok(
        if requested < max_secs {
            requested
        } else {
            max_secs
        },
    )
}

// ── Process ids ─────────────────────────────────────────────────────────────

/// The lower-case hexadecimal digit for `d < 16`.
pub open spec fn hex_char(d: nat) -> char {
    if d < 10 {
        crate::text::digit_char(d)
    } else if d == 10 {
        'a'
    } else if d == 11 {
        'b'
    } else if d == 12 {
        'c'
    } else if d == 13 {
        'd'
    } else if d == 14 {
        'e'
    } else {
        'f'
    }
}

/// `n` in lower-case hexadecimal.
pub open spec fn hex_text(n: nat) -> Seq<char>
    decreases n,
{
    if n < 16 {
        seq![hex_char(n)]
    } else {
        hex_text(n / 16).push(hex_char(n % 16))
    }
}

/// `s` padded on the left with zeros to at least `w` characters.
pub open spec fn zero_pad(s: Seq<char>, w: nat) -> Seq<char> {
    if s.len() < w {
        Seq::new((w - s.len()) as nat, |i: int| '0') + s
    } else {
        s
    }
}

fn hex_digit(d: u64) -> (r: char)
    requires
        d < 16,
    ensures
        r == hex_char(d as nat),
{
    if d < 10 {
        if d == 0 {
            '0'
        } else if d == 1 {
            '1'
        } else if d == 2 {
            '2'
        } else if d == 3 {
            '3'
        } else if d == 4 {
            '4'
        } else if d == 5 {
            '5'
        } else if d == 6 {
            '6'
        } else if d == 7 {
            '7'
        } else if d == 8 {
            '8'
        } else {
            '9'
        }
    } else if d == 10 {
        'a'
    } else if d == 11 {
        'b'
    } else if d == 12 {
        'c'
    } else if d == 13 {
        'd'
    } else if d == 14 {
        'e'
    } else {
        'f'
    }
}

fn push_hex(out: &mut Vec<char>, n: u64)
    ensures
        final(out)@ == old(out)@ + hex_text(n as nat),
    decreases n,
{
    if n >= 16 {
        push_hex(out, n / 16);
    }
    out.push(hex_digit(n % 16));
}

/// Hands out process ids `p-00000001`, `p-00000002`, ...
pub struct ProcessIds {
    issued: u64,
}

impl ProcessIds {
    pub closed spec fn count(&self) -> u64 {
        self.issued
    }

    pub fn new() -> (r: Self)
        ensures
            r.count() == 0,
    {
        ProcessIds { issued: 0 }
    }

    /// How many ids were handed out.
    pub fn issued(&self) -> (r: u64)
        ensures
            r == self.count(),
    {
        self.issued
    }

    /// The next id: `p-` and the count, in at least eight hexadecimal digits.
    pub fn next_id(&mut self) -> (r: String)
        requires
            old(self).count() < u64::MAX,
        ensures
            final(self).count() == old(self).count() + 1,
            r@ == "p-"@ + zero_pad(hex_text(final(self).count() as nat), 8),
    {
        self.issued = self.issued + 1;
        let mut digits: Vec<char> = Vec::new();
        push_hex(&mut digits, self.issued);
        let mut padded: Vec<char> = Vec::new();
        let n = digits.len();
        if n < 8 {
            let mut k: usize = 0;
            while k < 8 - n
                invariant
                    k <= 8 - n,
                    n < 8,
                    padded@ == Seq::new(k as nat, |i: int| '0'),
                decreases 8 - n - k,
            {
                padded.push('0');
                proof {
                    assert(padded@ =~= Seq::new((k + 1) as nat, |i: int| '0'));
                }
                k = k + 1;
            }
        }
        let mut out = String::from_str("p-");
        out.append(crate::text::string_from(padded.as_slice()).as_str());
        out.append(crate::text::string_from(digits.as_slice()).as_str());
        proof {
            assert(padded@ + digits@ =~= zero_pad(hex_text(self.issued as nat), 8));
        }
        out
    }
}

// ── Output buffers ──────────────────────────────────────────────────────────

/// Captured output, of which `dropped_prefix_bytes` were dropped from the
/// front to stay within the limit.
#[derive(Debug, Clone)]
pub struct OutputBuffer {
    pub data: String,
    pub dropped_prefix_bytes: u64,
}

/// The number of leading characters of `s` whose bytes cover at least
/// `n` bytes.
pub open spec fn chars_covering(s: Seq<char>, n: int) -> int
    decreases s.len(),
{
    if n <= 0 || s.len() == 0 {
        0
    } else {
        1 + chars_covering(s.drop_first(), n - utf8_width(s[0]))
    }
}

/// `s` after the first `k` characters, for `0 <= k`.
pub open spec fn bytes_dropped(s: Seq<char>, k: int) -> int {
    utf8_len(s.take(k))
}

proof fn lemma_utf8_len_first(s: Seq<char>)
    requires
        s.len() > 0,
    ensures
        utf8_len(s) == utf8_width(s[0]) + utf8_len(s.drop_first()),
    decreases s.len(),
{
    if s.len() > 1 {
        lemma_utf8_len_first(s.drop_last());
        assert(s.drop_last().drop_first() == s.drop_first().drop_last());
    } else {
        assert(s.drop_first() =~= Seq::<char>::empty());
        assert(s.drop_last() =~= Seq::<char>::empty());
    }
}

impl OutputBuffer {
    pub fn new() -> (r: Self)
        ensures
            r.data@.len() == 0,
            r.dropped_prefix_bytes == 0,
    {
        OutputBuffer { data: String::new(), dropped_prefix_bytes: 0 }
    }

    /// Appends `incoming`; when the data then exceeds `max_bytes`, drops
    /// whole characters from the front until it fits.
    pub fn append_bounded(&mut self, incoming: &str, max_bytes: usize)
        ensures
            ({
                let all = old(self).data@ + incoming@;
                let k = chars_covering(all, utf8_len(all) - max_bytes);
                if utf8_len(all) <= max_bytes {
                    final(self).data@ == all && final(self).dropped_prefix_bytes == old(
                        self,
                    ).dropped_prefix_bytes
                } else {
                    &&& final(self).data@ == all.skip(k)
                    &&& final(self).dropped_prefix_bytes == if old(self).dropped_prefix_bytes
                        + utf8_len(all.take(k)) <= u64::MAX {
                        (old(self).dropped_prefix_bytes + utf8_len(all.take(k))) as u64
                    } else {
                        u64::MAX
                    }
                }
            }),
    {
        self.data.append(incoming);
        let v = chars_of(self.data.as_str());
        let total = crate::text::utf8_len_of(v.as_slice());
        if total <= max_bytes as u128 {
            return;
        }
        let excess: u128 = total - max_bytes as u128;
        let mut dropped: u128 = 0;
        let mut k: usize = 0;
        proof {
            assert(v@.take(0) =~= Seq::<char>::empty());
            assert(v@.skip(0) == v@);
        }
        while k < v.len() && dropped < excess
            invariant
                k <= v.len(),
                dropped == utf8_len(v@.take(k as int)),
                dropped <= 4 * k,
                chars_covering(v@, excess as int) == k + chars_covering(
                    v@.skip(k as int),
                    excess - dropped,
                ),
            decreases v.len() - k,
        {
            proof {
                assert(v@.take(k + 1).drop_last() == v@.take(k as int));
                let rest = v@.skip(k as int);
                assert(rest[0] == v@[k as int]);
                assert(rest.drop_first() == v@.skip(k + 1));
            }
            dropped = dropped + crate::text::char_width(v[k]) as u128;
            k = k + 1;
        }
        proof {
            if k == v.len() {
                assert(v@.skip(k as int) =~= Seq::<char>::empty());
            }
        }
        self.data = crate::text::string_from_range(v.as_slice(), k, v.len());
        proof {
            assert(v@.subrange(k as int, v@.len() as int) == v@.skip(k as int));
        }
        let d: u64 = if dropped <= u64::MAX as u128 {
            dropped as u64
        } else {
            u64::MAX
        };
        self.dropped_prefix_bytes = self.dropped_prefix_bytes.saturating_add(d);
    }
}

/// The last `max_lines` lines of `text`, or all of it when it has no more.
pub open spec fn tail(text: Seq<char>, max_lines: int) -> Seq<char> {
    let ls = lines(text);
    if ls.len() <= max_lines {
        text
    } else {
        join(ls.skip(ls.len() - max_lines), "\n"@)
    }
}

/// The last `max_lines` lines of `text`.
pub fn tail_lines(text: &str, max_lines: usize) -> (r: String)
    ensures
        r@ == tail(text@, max_lines as int),
{
    let v = chars_of(text);
    let ls = lines_of(v.as_slice());
    if ls.len() <= max_lines {
        return String::from_str(text);
    }
    let mut parts: Vec<String> = Vec::new();
    let start = ls.len() - max_lines;
    let mut i = start;
    while i < ls.len()
        invariant
            start <= i <= ls@.len(),
            views(parts@) == cviews(ls@).subrange(start as int, i as int),
        decreases ls.len() - i,
    {
        let ghost before = views(parts@);
        let s = crate::text::string_from(ls[i].as_slice());
        parts.push(s);
        proof {
            assert(views(parts@) =~= before.push(s@));
            assert(cviews(ls@)[i as int] == ls@[i as int]@);
            assert(views(parts@) =~= cviews(ls@).subrange(start as int, i + 1));
        }
        i = i + 1;
    }
    proof {
        assert(cviews(ls@).subrange(start as int, ls@.len() as int) == cviews(ls@).skip(start as int));
    }
    crate::text::join_strings(&parts, "\n")
}

/// The tail of a text with more than `n >= 1` lines runs from its line
/// `total - n` (0-based) to its last line: it starts with the first of
/// those lines and ends with the text's last line.
pub proof fn law_tail_keeps_the_last_lines(text: Seq<char>, n: int)
    requires
        1 <= n < lines(text).len(),
    ensures
        lines(text)[lines(text).len() - n].is_prefix_of(tail(text, n)),
        lines(text).last().is_suffix_of(tail(text, n)),
{
    let ls = lines(text);
    let kept = ls.skip(ls.len() - n);
    crate::text::lemma_join_ends(kept, "\n"@);
    assert(kept[0] == ls[ls.len() - n]);
    assert(kept.last() == ls.last());
}

/// Each of the last `n` lines of a text with more lines than that occurs
/// in its tail.
pub proof fn law_tail_holds_each_of_the_last_lines(text: Seq<char>, n: int, k: int)
    requires
        1 <= n < lines(text).len(),
        lines(text).len() - n <= k < lines(text).len(),
    ensures
        crate::text::contains_seq(tail(text, n), lines(text)[k]),
{
    let ls = lines(text);
    let kept = ls.skip(ls.len() - n);
    let j = k - (ls.len() - n);
    crate::text::lemma_join_contains(kept, "\n"@, j);
    assert(kept[j] == ls[k]);
}

} // verus!

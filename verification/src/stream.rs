use vstd::prelude::*;

use crate::json::{get_key, json_array, json_parsed, json_u64, parse_json, JsonValue};
use crate::providers::{ChatResponse, TokenUsage, ToolCall};
use crate::session::{new_uuid, uuid_parses};
use crate::text::{chars_of, cviews, join, split_char, str_eq, strip_cr, trim, trim_start, trim_str, views};

verus! {

// ── Server-sent events ──────────────────────────────────────────────────────

/// One line of an event stream: a blank line ends the event (its `data:`
/// lines joined by newlines), a `data:` line adds its value.
pub open spec fn sse_line(data: Seq<Seq<char>>, line: Seq<char>) -> (Seq<Seq<char>>, Option<Seq<char>>) {
    if line.len() == 0 {
        if data.len() > 0 {
            (Seq::empty(), Some(join(data, "\n"@)))
        } else {
            (data, None)
        }
    } else if "data:"@.is_prefix_of(line) {
        (data.push(trim_start(line.skip(5))), None)
    } else {
        (data, None)
    }
}

/// The pending data lines and the events completed after `ls`.
pub open spec fn sse_lines(data: Seq<Seq<char>>, ls: Seq<Seq<char>>) -> (Seq<Seq<char>>, Seq<Seq<char>>)
    decreases ls.len(),
{
    if ls.len() == 0 {
        (data, Seq::empty())
    } else {
        let prev = sse_lines(data, ls.drop_last());
        let step = sse_line(prev.0, strip_cr(ls.last()));
        (
            step.0,
            match step.1 {
                Some(p) => prev.1.push(p),
                None => prev.1,
            },
        )
    }
}

/// What feeding `chunk` does to a decoder with pending text `pending` and
/// data lines `data`: the new pending text, the new data lines and the
/// payloads completed.
pub open spec fn feed_step(pending: Seq<char>, data: Seq<Seq<char>>, chunk: Seq<char>) -> (
    Seq<char>,
    Seq<Seq<char>>,
    Seq<Seq<char>>,
) {
    let pieces = split_char(pending + chunk, '\n');
    let done = sse_lines(data, pieces.drop_last());
    (pieces.last(), done.0, done.1)
}

proof fn lemma_sse_lines_concat(data: Seq<Seq<char>>, xs: Seq<Seq<char>>, ys: Seq<Seq<char>>)
    ensures
        sse_lines(data, xs + ys) == (
            sse_lines(sse_lines(data, xs).0, ys).0,
            sse_lines(data, xs).1 + sse_lines(sse_lines(data, xs).0, ys).1,
        ),
    decreases ys.len(),
{
    if ys.len() == 0 {
        assert(xs + ys =~= xs);
        assert(sse_lines(data, xs).1 + Seq::<Seq<char>>::empty() =~= sse_lines(data, xs).1);
    } else {
        let y0 = ys.drop_last();
        lemma_sse_lines_concat(data, xs, y0);
        assert((xs + ys).drop_last() =~= xs + y0);
        assert((xs + ys).last() == ys.last());
        let a = sse_lines(data, xs);
        let b = sse_lines(a.0, y0);
        let step = sse_line(b.0, strip_cr(ys.last()));
        match step.1 {
            Some(pl) => {
                assert((a.1 + b.1).push(pl) =~= a.1 + b.1.push(pl));
            },
            None => {},
        }
    }
}

/// Text fed in two pieces decodes as when fed at once: the same pending
/// text and data lines, and the payloads of the first piece followed by
/// those of the second.
pub proof fn law_feed_split(pending: Seq<char>, data: Seq<Seq<char>>, a: Seq<char>, b: Seq<char>)
    ensures
        ({
            let first = feed_step(pending, data, a);
            let second = feed_step(first.0, first.1, b);
            feed_step(pending, data, a + b) == (second.0, second.1, first.2 + second.2)
        }),
{
    let pa = split_char(pending + a, '\n');
    crate::text::lemma_split_concat(pending + a, b, '\n');
    assert(pending + (a + b) =~= (pending + a) + b);
    let q = split_char(pa.last() + b, '\n');
    crate::text::lemma_split_nonempty(pa.last() + b, '\n');
    crate::text::lemma_split_nonempty(pending + a, '\n');
    let all = pa.drop_last() + q;
    assert(all.drop_last() =~= pa.drop_last() + q.drop_last());
    assert(all.last() == q.last());
    lemma_sse_lines_concat(data, pa.drop_last(), q.drop_last());
}

/// Feeding the chunks `cs` one after the other: the final pending text and
/// data lines, and all payloads completed in order.
pub open spec fn feed_all(pending: Seq<char>, data: Seq<Seq<char>>, cs: Seq<Seq<char>>) -> (
    Seq<char>,
    Seq<Seq<char>>,
    Seq<Seq<char>>,
)
    decreases cs.len(),
{
    if cs.len() == 0 {
        (pending, data, Seq::empty())
    } else {
        let prev = feed_all(pending, data, cs.drop_last());
        let step = feed_step(prev.0, prev.1, cs.last());
        (step.0, step.1, prev.2 + step.2)
    }
}

/// The text of the chunks `cs` joined.
pub open spec fn chunks_text(cs: Seq<Seq<char>>) -> Seq<char>
    decreases cs.len(),
{
    if cs.len() == 0 {
        Seq::empty()
    } else {
        chunks_text(cs.drop_last()) + cs.last()
    }
}

/// However a stream's text is cut into chunks, feeding them one by one
/// decodes as feeding the whole text at once: the same pending text and
/// data lines, and the same payloads in the same order.
pub proof fn law_chunking_does_not_matter(pending: Seq<char>, data: Seq<Seq<char>>, cs: Seq<Seq<char>>)
    requires
        !pending.contains('\n'),
    ensures
        feed_all(pending, data, cs) == feed_step(pending, data, chunks_text(cs)),
    decreases cs.len(),
{
    if cs.len() == 0 {
        assert(pending + Seq::<char>::empty() =~= pending);
        crate::text::lemma_split_free(pending, '\n');
    } else {
        let init = cs.drop_last();
        law_chunking_does_not_matter(pending, data, init);
        law_feed_split(pending, data, chunks_text(init), cs.last());
    }
}

/// Splits an event stream into event payloads as its text arrives.
pub struct SseDecoder {
    buffer: String,
    data: Vec<String>,
}

impl SseDecoder {
    pub closed spec fn pending(&self) -> Seq<char> {
        self.buffer@
    }

    pub closed spec fn data_lines(&self) -> Seq<Seq<char>> {
        views(self.data@)
    }

    pub fn new() -> (r: Self)
        ensures
            r.pending().len() == 0,
            r.data_lines().len() == 0,
    {
        let r = SseDecoder { buffer: String::new(), data: Vec::new() };
        proof {
            assert(r.data_lines() =~= Seq::<Seq<char>>::empty());
        }
        r
    }

    fn line(&mut self, line: &Vec<char>) -> (r: Option<String>)
        ensures
            final(self).pending() == old(self).pending(),
            final(self).data_lines() == sse_line(old(self).data_lines(), line@).0,
            crate::env::opt_view(r) == sse_line(old(self).data_lines(), line@).1,
    {
        proof {
            reveal_strlit("data:");
        }
        if line.len() == 0 {
            if self.data.len() > 0 {
                let payload = crate::text::join_strings(&self.data, "\n");
                self.data = Vec::new();
                proof {
                    assert(self.data_lines() =~= Seq::<Seq<char>>::empty());
                }
                return Some(payload);
            }
            return None;
        }
        let prefix = crate::text::lit("data:");
        if crate::text::starts_with(line.as_slice(), prefix.as_slice()) {
            let rest = crate::text::slice_vec(line.as_slice(), 5, line.len());
            proof {
                assert(line@.subrange(5, line@.len() as int) == line@.skip(5));
            }
            let value = crate::text::trim_start_vec(rest.as_slice());
            let ghost before = self.data_lines();
            self.data.push(crate::text::string_from(value.as_slice()));
            proof {
                assert(self.data_lines() =~= before.push(trim_start(line@.skip(5))));
            }
        }
        None
    }

    /// Takes in more of the stream; gives the events it completes.
    pub fn feed(&mut self, chunk: &str) -> (r: Vec<String>)
        ensures
            (final(self).pending(), final(self).data_lines(), views(r@)) == feed_step(
                old(self).pending(),
                old(self).data_lines(),
                chunk@,
            ),
            !final(self).pending().contains('\n'),
            ({
                let pieces = split_char(old(self).pending() + chunk@, '\n');
                let done = sse_lines(old(self).data_lines(), pieces.drop_last());
                &&& final(self).pending() == pieces.last()
                &&& final(self).data_lines() == done.0
                &&& views(r@) == done.1
            }),
    {
        let mut all = chars_of(self.buffer.as_str());
        let cv = chars_of(chunk);
        let mut k: usize = 0;
        let ghost start = all@;
        while k < cv.len()
            invariant
                k <= cv.len(),
                all@ == start + cv@.take(k as int),
            decreases cv.len() - k,
        {
            all.push(cv[k]);
            proof {
                assert(cv@.take(k + 1) == cv@.take(k as int).push(cv@[k as int]));
            }
            k = k + 1;
        }
        proof {
            assert(cv@.take(cv@.len() as int) == cv@);
        }
        let pieces = crate::text::split_chars(all.as_slice(), '\n');
        proof {
            crate::text::lemma_split_nonempty(all@, '\n');
            crate::text::lemma_split_last_free(all@, '\n');
        }
        let n = pieces.len();
        let ghost pv = cviews(pieces@);
        let ghost data0 = self.data_lines();
        let mut out: Vec<String> = Vec::new();
        let mut i: usize = 0;
        proof {
            assert(pv.drop_last().take(0) =~= Seq::<Seq<char>>::empty());
            assert(views(out@) =~= Seq::<Seq<char>>::empty());
        }
        while i + 1 < n
            invariant
                n == pieces@.len(),
                n >= 1,
                i + 1 <= n,
                pv == cviews(pieces@),
                ({
                    let done = sse_lines(data0, pv.drop_last().take(i as int));
                    self.data_lines() == done.0 && views(out@) == done.1
                }),
            decreases n - i,
        {
            let p = &pieces[i];
            let mut l = p.clone();
            if l.len() > 0 && l[l.len() - 1] == '\r' {
                l.pop();
            }
            proof {
                assert(pv[i as int] == p@);
                assert(l@ == strip_cr(p@));
                let t = pv.drop_last().take(i + 1);
                assert(t.drop_last() == pv.drop_last().take(i as int));
                assert(t.last() == p@);
            }
            let ghost before = views(out@);
            match self.line(&l) {
                Some(payload) => {
                    out.push(payload);
                    proof {
                        assert(views(out@) =~= before.push(payload@));
                    }
                },
                None => {},
            }
            i = i + 1;
        }
        proof {
            assert(pv.drop_last().take((n - 1) as int) == pv.drop_last());
            assert(pv.last() == pieces@[n - 1]@);
        }
        self.buffer = crate::text::string_from(pieces[n - 1].as_slice());
        out
    }

    /// Ends the stream: the event still pending, if any, including a last
    /// `data:` line without its newline.
    pub fn finish(&mut self) -> (r: Option<String>)
        ensures
            ({
                let data = if old(self).pending().len() > 0 && "data:"@.is_prefix_of(
                    strip_cr(old(self).pending()),
                ) {
                    old(self).data_lines().push(trim_start(strip_cr(old(self).pending()).skip(5)))
                } else {
                    old(self).data_lines()
                };
                crate::env::opt_view(r) == if data.len() > 0 {
                    Some(join(data, "\n"@))
                } else {
                    None
                }
            }),
    {
        proof {
            reveal_strlit("data:");
        }
        let mut l = chars_of(self.buffer.as_str());
        if l.len() > 0 {
            if l[l.len() - 1] == '\r' {
                l.pop();
            }
            let prefix = crate::text::lit("data:");
            if crate::text::starts_with(l.as_slice(), prefix.as_slice()) {
                let rest = crate::text::slice_vec(l.as_slice(), 5, l.len());
                proof {
                    assert(l@.subrange(5, l@.len() as int) == l@.skip(5));
                }
                let value = crate::text::trim_start_vec(rest.as_slice());
                let ghost before = self.data_lines();
                self.data.push(crate::text::string_from(value.as_slice()));
                proof {
                    assert(self.data_lines() =~= before.push(value@));
                }
            }
        }
        if self.data.len() > 0 {
            Some(crate::text::join_strings(&self.data, "\n"))
        } else {
            None
        }
    }
}

// ── Streamed responses ──────────────────────────────────────────────────────

/// Token counts as a stream reports them, each optional.
#[derive(Debug, Clone, Copy)]
pub struct UsageCounts {
    pub prompt_tokens: Option<u32>,
    pub completion_tokens: Option<u32>,
    pub total_tokens: Option<u32>,
}

/// A `u32` field read as serde reads an `Option<u32>` with a default:
/// absent or null is `None`; anything but an integer that fits is an error
/// (the outer `None`).
pub open spec fn u32_field(v: JsonValue, key: Seq<char>) -> Option<Option<u32>> {
    match get_key(v, key) {
        None => Some(None),
        Some(JsonValue::Null) => Some(None),
        Some(x) => match json_u64(x) {
            Some(n) => if n <= u32::MAX {
                Some(Some(n as u32))
            } else {
                None
            },
            None => None,
        },
    }
}

/// The token counts of a `usage` object; `None` when it does not read as
/// one.
pub open spec fn usage_of(v: JsonValue) -> Option<UsageCounts> {
    if v is Object {
        match (u32_field(v, "prompt_tokens"@), u32_field(v, "completion_tokens"@), u32_field(
            v,
            "total_tokens"@,
        )) {
            (Some(p), Some(c), Some(t)) => Some(
                UsageCounts { prompt_tokens: p, completion_tokens: c, total_tokens: t },
            ),
            _ => None,
        }
    } else {
        None
    }
}

fn u32_field_of(v: &JsonValue, key: &str) -> (r: Option<Option<u32>>)
    ensures
        r == u32_field(*v, key@),
{
    match v.get(key) {
        None => Some(None),
        Some(JsonValue::Null) => Some(None),
        Some(x) => match x.as_u64() {
            Some(n) => if n <= u32::MAX as u64 {
                Some(Some(n as u32))
            } else {
                None
            },
            None => None,
        },
    }
}

fn usage_of_value(v: &JsonValue) -> (r: Option<UsageCounts>)
    ensures
        r == usage_of(*v),
{
    if !v.is_object() {
        return None;
    }
    let p = u32_field_of(v, "prompt_tokens");
    let c = u32_field_of(v, "completion_tokens");
    let t = u32_field_of(v, "total_tokens");
    match (p, c, t) {
        (Some(p), Some(c), Some(t)) => Some(
            UsageCounts { prompt_tokens: p, completion_tokens: c, total_tokens: t },
        ),
        _ => None,
    }
}

/// A tool call being assembled from stream pieces.
#[derive(Debug)]
pub struct ToolCallDraft {
    pub id: Option<String>,
    pub name: String,
    pub arguments: String,
}

pub struct DraftView {
    pub id: Option<Seq<char>>,
    pub name: Seq<char>,
    pub arguments: Seq<char>,
}

pub open spec fn dview(d: ToolCallDraft) -> DraftView {
    DraftView { id: crate::env::opt_view(d.id), name: d.name@, arguments: d.arguments@ }
}

pub open spec fn empty_draft() -> DraftView {
    DraftView { id: None, name: Seq::empty(), arguments: Seq::empty() }
}

/// A name piece merged into the name so far: a piece that repeats the name
/// so far and extends it replaces it; one the name already ends with is
/// dropped; any other is appended.
pub open spec fn merged_name(existing: Seq<char>, incoming: Seq<char>) -> Seq<char> {
    if incoming.len() == 0 {
        existing
    } else if existing.len() == 0 {
        incoming
    } else if existing.is_prefix_of(incoming) {
        incoming
    } else if !incoming.is_suffix_of(existing) {
        existing + incoming
    } else {
        existing
    }
}

/// Merges a streamed name piece into `existing`.
pub fn merge_streamed_name(existing: &mut String, incoming: &str)
    ensures
        final(existing)@ == merged_name(old(existing)@, incoming@),
{
    let inc = chars_of(incoming);
    if inc.len() == 0 {
        return;
    }
    let ex = chars_of(existing.as_str());
    if ex.len() == 0 {
        *existing = String::from_str(incoming);
        return;
    }
    if crate::text::starts_with(inc.as_slice(), ex.as_slice()) {
        *existing = String::from_str(incoming);
        return;
    }
    if !crate::text::ends_with(ex.as_slice(), inc.as_slice()) {
        existing.append(incoming);
    }
}

pub open spec fn str_field(v: JsonValue, key: Seq<char>) -> Option<Seq<char>> {
    match get_key(v, key) {
        Some(JsonValue::Str(s, _)) => Some(s@),
        _ => None,
    }
}

/// A tool call piece applied to a draft: a non-empty `id` sets the id;
/// the `function` object's `name` merges into the name and its `arguments`
/// are appended.
pub open spec fn apply_delta(d: DraftView, tc: JsonValue) -> DraftView {
    let id = match str_field(tc, "id"@) {
        Some(s) => if s.len() > 0 {
            Some(s)
        } else {
            d.id
        },
        None => d.id,
    };
    match get_key(tc, "function"@) {
        Some(f) => if f is Object {
            DraftView {
                id,
                name: match str_field(f, "name"@) {
                    Some(n) => merged_name(d.name, n),
                    None => d.name,
                },
                arguments: match str_field(f, "arguments"@) {
                    Some(a) => d.arguments + a,
                    None => d.arguments,
                },
            }
        } else {
            DraftView { id, ..d }
        },
        None => DraftView { id, ..d },
    }
}

/// Drafts by index, in increasing order of index.
pub open spec fn drafts_ordered(ds: Seq<(int, DraftView)>) -> bool {
    forall|i: int, j: int| 0 <= i < j < ds.len() ==> #[trigger] ds[i].0 < #[trigger] ds[j].0
}

/// The number of drafts the stream has opened: one past the highest index.
pub open spec fn dense_len(ds: Seq<(int, DraftView)>) -> int {
    if ds.len() == 0 {
        0
    } else {
        ds.last().0 + 1
    }
}

/// The first place whose index is not below `idx`.
pub open spec fn index_pos(ds: Seq<(int, DraftView)>, idx: int) -> int
    decreases ds.len(),
{
    if ds.len() == 0 || ds[0].0 >= idx {
        0
    } else {
        1 + index_pos(ds.drop_first(), idx)
    }
}

/// The drafts after a piece for the call at `idx`: it changes that call's
/// draft, which starts empty.
pub open spec fn upsert_draft(ds: Seq<(int, DraftView)>, idx: int, tc: JsonValue) -> Seq<(int, DraftView)> {
    let p = index_pos(ds, idx);
    if p < ds.len() && ds[p].0 == idx {
        ds.update(p, (idx, apply_delta(ds[p].1, tc)))
    } else {
        ds.insert(p, (idx, apply_delta(empty_draft(), tc)))
    }
}

/// One tool call piece: an object with an optional `index` (default: the
/// next call).
pub open spec fn tool_call_delta(ds: Seq<(int, DraftView)>, tc: JsonValue) -> Seq<(int, DraftView)> {
    if !(tc is Object) {
        ds
    } else {
        let idx = match get_key(tc, "index"@) {
            Some(x) => match json_u64(x) {
                Some(n) => if n <= usize::MAX {
                    n as int
                } else {
                    dense_len(ds)
                },
                None => dense_len(ds),
            },
            None => dense_len(ds),
        };
        upsert_draft(ds, idx, tc)
    }
}

pub open spec fn tool_call_deltas(ds: Seq<(int, DraftView)>, tcs: Seq<JsonValue>) -> Seq<(int, DraftView)>
    decreases tcs.len(),
{
    if tcs.len() == 0 {
        ds
    } else {
        tool_call_delta(tool_call_deltas(ds, tcs.drop_last()), tcs.last())
    }
}

/// What a stream has given so far.
pub struct StreamView {
    pub text: Seq<char>,
    pub drafts: Seq<(int, DraftView)>,
    pub usage: Option<UsageCounts>,
}

/// One choice of an event: its `delta` object's non-empty `content` is text
/// (and a chunk to forward), its `tool_calls` are pieces of tool calls.
pub open spec fn choice_step(st: StreamView, choice: JsonValue) -> (StreamView, Seq<Seq<char>>) {
    match get_key(choice, "delta"@) {
        Some(d) => if d is Object {
            let (text, chunks) = match str_field(d, "content"@) {
                Some(c) => if c.len() > 0 {
                    (st.text + c, seq![c])
                } else {
                    (st.text, Seq::<Seq<char>>::empty())
                },
                None => (st.text, Seq::<Seq<char>>::empty()),
            };
            let drafts = match get_key(d, "tool_calls"@) {
                Some(a) => match json_array(a) {
                    Some(tcs) => tool_call_deltas(st.drafts, tcs),
                    None => st.drafts,
                },
                None => st.drafts,
            };
            (StreamView { text, drafts, usage: st.usage }, chunks)
        } else {
            (st, Seq::empty())
        },
        None => (st, Seq::empty()),
    }
}

pub open spec fn choices_step(st: StreamView, cs: Seq<JsonValue>) -> (StreamView, Seq<Seq<char>>)
    decreases cs.len(),
{
    if cs.len() == 0 {
        (st, Seq::empty())
    } else {
        let prev = choices_step(st, cs.drop_last());
        let next = choice_step(prev.0, cs.last());
        (next.0, prev.1 + next.1)
    }
}

/// One parsed event: a `usage` object replaces the counts; then each
/// choice applies.
pub open spec fn event_step(st: StreamView, v: JsonValue) -> (StreamView, Seq<Seq<char>>) {
    let st1 = match get_key(v, "usage"@) {
        Some(u) => match usage_of(u) {
            Some(x) => StreamView { usage: Some(x), ..st },
            None => st,
        },
        None => st,
    };
    match get_key(v, "choices"@) {
        Some(c) => match json_array(c) {
            Some(cs) => choices_step(st1, cs),
            None => (st1, Seq::empty()),
        },
        None => (st1, Seq::empty()),
    }
}

/// Whether an event payload is skipped before parsing: blank, or `[DONE]`.
pub open spec fn payload_skipped(payload: Seq<char>) -> bool {
    trim(payload).len() == 0 || trim(payload) == "[DONE]"@
}

/// One event payload: `[DONE]` and blank payloads are skipped, as is text
/// that is not JSON; any other is parsed and applied.
pub open spec fn payload_step(st: StreamView, payload: Seq<char>) -> (StreamView, Seq<Seq<char>>) {
    if payload_skipped(payload) {
        (st, Seq::empty())
    } else {
        match json_parsed(trim(payload)) {
            None => (st, Seq::empty()),
            Some(v) => event_step(st, v),
        }
    }
}

proof fn lemma_index_pos_scan(ds: Seq<(int, DraftView)>, idx: int, p: int)
    requires
        0 <= p <= ds.len(),
        forall|q: int| 0 <= q < p ==> (#[trigger] ds[q]).0 < idx,
        p == ds.len() || ds[p].0 >= idx,
    ensures
        index_pos(ds, idx) == p,
    decreases p,
{
    if p > 0 {
        let t = ds.drop_first();
        assert forall|q: int| 0 <= q < p - 1 implies (#[trigger] t[q]).0 < idx by {
            assert(t[q] == ds[q + 1]);
        }
        if p < ds.len() {
            assert(t[p - 1] == ds[p]);
        }
        assert(ds[0].0 < idx);
        lemma_index_pos_scan(t, idx, p - 1);
    }
}

fn apply_delta_to(d: &mut ToolCallDraft, tc: &JsonValue)
    ensures
        dview(*final(d)) == apply_delta(dview(*old(d)), *tc),
{
    match tc.get("id") {
        Some(v) => match v.as_str() {
            Some(id) => {
                if !id.as_str().is_empty() {
                    d.id = Some(id.clone());
                }
            },
            None => {},
        },
        None => {},
    }
    match tc.get("function") {
        Some(f) => {
            if f.is_object() {
                match f.get("name") {
                    Some(n) => match n.as_str() {
                        Some(piece) => merge_streamed_name(&mut d.name, piece.as_str()),
                        None => {},
                    },
                    None => {},
                }
                match f.get("arguments") {
                    Some(a) => match a.as_str() {
                        Some(piece) => d.arguments.append(piece.as_str()),
                        None => {},
                    },
                    None => {},
                }
            }
        },
        None => {},
    }
}

/// Collects a streamed response: its text, its tool calls and its usage.
pub struct StreamAccumulator {
    text: String,
    drafts: Vec<(u128, ToolCallDraft)>,
    usage: Option<UsageCounts>,
}

pub open spec fn drafts_view(ds: Seq<(u128, ToolCallDraft)>) -> Seq<(int, DraftView)> {
    ds.map_values(|e: (u128, ToolCallDraft)| (e.0 as int, dview(e.1)))
}

impl StreamAccumulator {
    pub closed spec fn view(&self) -> StreamView {
        StreamView { text: self.text@, drafts: drafts_view(self.drafts@), usage: self.usage }
    }

    /// Drafts in increasing order of index; an index beyond `usize` comes
    /// only from pieces without one, so the draft at place `i` has an index
    /// of at most `usize::MAX + i`.
    pub closed spec fn wf(&self) -> bool {
        &&& drafts_ordered(drafts_view(self.drafts@))
        &&& forall|i: int| 0 <= i < self.drafts@.len() ==> (#[trigger] self.drafts@[i]).0 <= usize::MAX + i
    }

    pub fn new() -> (r: Self)
        ensures
            r.wf(),
            r.view().text.len() == 0,
            r.view().drafts.len() == 0,
            r.view().usage is None,
    {
        let r = StreamAccumulator { text: String::new(), drafts: Vec::new(), usage: None };
        proof {
            assert(drafts_view(r.drafts@) =~= Seq::<(int, DraftView)>::empty());
        }
        r
    }

    fn tool_call_delta(&mut self, tc: &JsonValue)
        requires
            old(self).wf(),
        ensures
            final(self).wf(),
            final(self).view() == (StreamView {
                drafts: tool_call_delta(old(self).view().drafts, *tc),
                ..old(self).view()
            }),
    {
        if !tc.is_object() {
            return;
        }
        let ghost ds = self.view().drafts;
        let dense: u128 = if self.drafts.len() == 0 {
            0
        } else {
            self.drafts[self.drafts.len() - 1].0 + 1
        };
        proof {
            if self.drafts@.len() > 0 {
                assert(ds.last() == (self.drafts@.last().0 as int, dview(self.drafts@.last().1)));
            }
        }
        let idx: u128 = match tc.get("index") {
            Some(x) => match x.as_u64() {
                Some(n) => if n as u128 <= usize::MAX as u128 {
                    n as u128
                } else {
                    dense
                },
                None => dense,
            },
            None => dense,
        };
        let mut p: usize = 0;
        while p < self.drafts.len() && self.drafts[p].0 < idx
            invariant
                p <= self.drafts@.len(),
                ds == drafts_view(self.drafts@),
                forall|q: int| 0 <= q < p ==> (#[trigger] ds[q]).0 < idx,
            decreases self.drafts.len() - p,
        {
            proof {
                assert(ds[p as int].0 == self.drafts@[p as int].0);
            }
            p = p + 1;
        }
        proof {
            if p < self.drafts@.len() {
                assert(ds[p as int].0 == self.drafts@[p as int].0);
            }
            lemma_index_pos_scan(ds, idx as int, p as int);
        }
        if p < self.drafts.len() && self.drafts[p].0 == idx {
            let (i, mut d) = self.drafts.remove(p);
            let ghost before = dview(d);
            proof {
                assert(before == ds[p as int].1);
            }
            apply_delta_to(&mut d, tc);
            let ghost after = dview(d);
            self.drafts.insert(p, (i, d));
            proof {
                assert(drafts_view(self.drafts@) =~= ds.update(p as int, (idx as int, after)));
                assert(drafts_ordered(drafts_view(self.drafts@))) by {
                    assert forall|a: int, b: int| 0 <= a < b < drafts_view(self.drafts@).len() implies #[trigger] drafts_view(
                        self.drafts@,
                    )[a].0 < #[trigger] drafts_view(self.drafts@)[b].0 by {
                        assert(ds[a].0 < ds[b].0);
                    }
                }
            }
        } else {
            let mut d = ToolCallDraft { id: None, name: String::new(), arguments: String::new() };
            apply_delta_to(&mut d, tc);
            let ghost after = dview(d);
            let ghost old_drafts = self.drafts@;
            self.drafts.insert(p, (idx, d));
            proof {
                assert(drafts_view(self.drafts@) =~= ds.insert(p as int, (idx as int, after)));
                let nd = drafts_view(self.drafts@);
                assert(drafts_ordered(nd)) by {
                    assert forall|a: int, b: int| 0 <= a < b < nd.len() implies #[trigger] nd[a].0
                        < #[trigger] nd[b].0 by {
                        if b < p {
                            assert(ds[a].0 < ds[b].0);
                        } else if b == p {
                        } else if a < p {
                            assert(ds[a].0 < idx);
                            assert(ds[b - 1].0 >= ds[p as int].0);
                        } else if a == p {
                            assert(ds[b - 1].0 >= ds[p as int].0);
                        } else {
                            assert(ds[a - 1].0 < ds[b - 1].0);
                        }
                    }
                }
                if idx as int > usize::MAX {
                    assert(idx as int == dense_len(ds));
                    if p < ds.len() {
                        assert(ds[p as int].0 <= ds.last().0);
                    }
                    assert(p == ds.len());
                }
                assert forall|i: int| 0 <= i < self.drafts@.len() implies (#[trigger] self.drafts@[i]).0
                    <= usize::MAX + i by {
                    if i < p {
                        assert(self.drafts@[i] == old_drafts[i]);
                    } else if i > p {
                        assert(self.drafts@[i] == old_drafts[i - 1]);
                    }
                }
            }
        }
    }
}


impl StreamAccumulator {
    fn tool_call_deltas(&mut self, tcs: &Vec<JsonValue>)
        requires
            old(self).wf(),
        ensures
            final(self).wf(),
            final(self).view() == (StreamView {
                drafts: tool_call_deltas(old(self).view().drafts, tcs@),
                ..old(self).view()
            }),
    {
        let ghost start = self.view();
        let mut i: usize = 0;
        while i < tcs.len()
            invariant
                self.wf(),
                i <= tcs@.len(),
                self.view() == (StreamView {
                    drafts: tool_call_deltas(start.drafts, tcs@.take(i as int)),
                    ..start
                }),
            decreases tcs.len() - i,
        {
            self.tool_call_delta(&tcs[i]);
            proof {
                assert(tcs@.take(i + 1).drop_last() =~= tcs@.take(i as int));
                assert(tcs@.take(i + 1).last() == tcs@[i as int]);
            }
            i = i + 1;
        }
        proof {
            assert(tcs@.take(tcs@.len() as int) =~= tcs@);
        }
    }

    fn apply_choice(&mut self, choice: &JsonValue) -> (r: Vec<String>)
        requires
            old(self).wf(),
        ensures
            final(self).wf(),
            (final(self).view(), views(r@)) == choice_step(old(self).view(), *choice),
    {
        let mut chunks: Vec<String> = Vec::new();
        let d = match choice.get("delta") {
            Some(d) => d,
            None => {
                proof {
                    assert(views(chunks@) =~= Seq::<Seq<char>>::empty());
                }
                return chunks;
            },
        };
        if !d.is_object() {
            proof {
                assert(views(chunks@) =~= Seq::<Seq<char>>::empty());
            }
            return chunks;
        }
        match d.get("content") {
            Some(c) => match c.as_str() {
                Some(text) => {
                    if !text.as_str().is_empty() {
                        self.text.append(text.as_str());
                        chunks.push(text.clone());
                    }
                },
                None => {},
            },
            None => {},
        }
        match d.get("tool_calls") {
            Some(a) => match a.as_array() {
                Some(tcs) => self.tool_call_deltas(tcs),
                None => {},
            },
            None => {},
        }
        proof {
            let c = str_field(*d, "content"@);
            if c is Some && c->0.len() > 0 {
                assert(views(chunks@) =~= seq![c->0]);
            } else {
                assert(views(chunks@) =~= Seq::<Seq<char>>::empty());
            }
        }
        chunks
    }

    /// Applies one parsed event and returns the text chunks it carried, in
    /// order.
    pub fn apply_event(&mut self, v: &JsonValue) -> (r: Vec<String>)
        requires
            old(self).wf(),
        ensures
            final(self).wf(),
            (final(self).view(), views(r@)) == event_step(old(self).view(), *v),
    {
        match v.get("usage") {
            Some(u) => match usage_of_value(u) {
                Some(x) => {
                    self.usage = Some(x);
                },
                None => {},
            },
            None => {},
        }
        let ghost st1 = self.view();
        let mut chunks: Vec<String> = Vec::new();
        let cs = match v.get("choices") {
            Some(c) => match c.as_array() {
                Some(cs) => cs,
                None => {
                    proof {
                        assert(views(chunks@) =~= Seq::<Seq<char>>::empty());
                    }
                    return chunks;
                },
            },
            None => {
                proof {
                    assert(views(chunks@) =~= Seq::<Seq<char>>::empty());
                }
                return chunks;
            },
        };
        let mut i: usize = 0;
        while i < cs.len()
            invariant
                self.wf(),
                i <= cs@.len(),
                (self.view(), views(chunks@)) == choices_step(st1, cs@.take(i as int)),
            decreases cs.len() - i,
        {
            let ghost before = chunks@;
            let more = self.apply_choice(&cs[i]);
            chunks.append(&mut more.clone());
            proof {
                assert(cs@.take(i + 1).drop_last() =~= cs@.take(i as int));
                assert(cs@.take(i + 1).last() == cs@[i as int]);
                assert(views(chunks@) =~= views(before) + views(more@));
            }
            i = i + 1;
        }
        proof {
            assert(cs@.take(cs@.len() as int) =~= cs@);
        }
        chunks
    }

    /// Applies one event payload and returns the text chunks it carried.
    pub fn apply_payload(&mut self, payload: &str) -> (r: Vec<String>)
        requires
            old(self).wf(),
        ensures
            final(self).wf(),
            payload_skipped(payload@) ==> final(self).view() == old(self).view() && r@.len() == 0,
            !payload_skipped(payload@) && json_parsed(trim(payload@)) is None ==> final(self).view()
                == old(self).view() && r@.len() == 0,
            !payload_skipped(payload@) ==> (forall|v: JsonValue|
                json_parsed(trim(payload@)) == Some(v) ==> (final(self).view(), views(r@))
                    == event_step(old(self).view(), v)),
    {
        let t = trim_str(payload);
        proof {
            reveal_strlit("[DONE]");
        }
        if t.as_str().is_empty() || str_eq(t.as_str(), "[DONE]") {
            return Vec::new();
        }
        match parse_json(t.as_str()) {
            Err(_) => Vec::new(),
            Ok(v) => self.apply_event(&v),
        }
    }
}

/// Whether a draft becomes a tool call: it has an id, a name or arguments
/// that are not blank.
pub open spec fn draft_kept(d: DraftView) -> bool {
    d.id is Some || trim(d.name).len() > 0 || trim(d.arguments).len() > 0
}

/// The drafts that become tool calls, in order of index.
pub open spec fn kept_drafts(ds: Seq<(int, DraftView)>) -> Seq<DraftView>
    decreases ds.len(),
{
    if ds.len() == 0 {
        Seq::empty()
    } else if draft_kept(ds.last().1) {
        kept_drafts(ds.drop_last()).push(ds.last().1)
    } else {
        kept_drafts(ds.drop_last())
    }
}

/// The tool call a kept draft becomes: a blank name is `unknown_tool`,
/// blank arguments are `{}`, and a missing id is a fresh UUID.
pub open spec fn call_from_draft(d: DraftView, c: ToolCall) -> bool {
    &&& c.name@ == (if trim(d.name).len() == 0 {
        "unknown_tool"@
    } else {
        d.name
    })
    &&& c.arguments@ == (if trim(d.arguments).len() == 0 {
        "{}"@
    } else {
        d.arguments
    })
    &&& match d.id {
        Some(id) => c.id@ == id,
        None => uuid_parses(c.id@),
    }
}

pub open spec fn count_or_zero(c: Option<u32>) -> u32 {
    match c {
        Some(n) => n,
        None => 0,
    }
}

impl StreamAccumulator {
    /// The response the stream has given: its text unless empty, a tool
    /// call for each kept draft in order of index, and its usage with
    /// missing counts read as zero.
    pub fn into_response(self) -> (r: ChatResponse)
        requires
            self.wf(),
        ensures
            match r.text {
                Some(t) => self.view().text.len() > 0 && t@ == self.view().text,
                None => self.view().text.len() == 0,
            },
            r.tool_calls@.len() == kept_drafts(self.view().drafts).len(),
            forall|k: int|
                0 <= k < r.tool_calls@.len() ==> call_from_draft(
                    #[trigger] kept_drafts(self.view().drafts)[k],
                    r.tool_calls@[k],
                ),
            match self.view().usage {
                Some(u) => r.usage matches Some(t) && t.prompt_tokens == count_or_zero(u.prompt_tokens)
                    && t.completion_tokens == count_or_zero(u.completion_tokens)
                    && t.total_tokens == count_or_zero(u.total_tokens),
                None => r.usage is None,
            },
    {
        let ghost dv = drafts_view(self.drafts@);
        let mut calls: Vec<ToolCall> = Vec::new();
        let mut i: usize = 0;
        while i < self.drafts.len()
            invariant
                i <= self.drafts@.len(),
                dv == drafts_view(self.drafts@),
                calls@.len() == kept_drafts(dv.take(i as int)).len(),
                forall|k: int|
                    0 <= k < calls@.len() ==> call_from_draft(
                        #[trigger] kept_drafts(dv.take(i as int))[k],
                        calls@[k],
                    ),
            decreases self.drafts.len() - i,
        {
            let d = &self.drafts[i].1;
            proof {
                assert(dv.take(i + 1).drop_last() =~= dv.take(i as int));
                assert(dv.take(i + 1).last() == dv[i as int]);
                assert(dv[i as int].1 == dview(*d));
            }
            let name_t = trim_str(d.name.as_str());
            let args_t = trim_str(d.arguments.as_str());
            if d.id.is_some() || !name_t.as_str().is_empty() || !args_t.as_str().is_empty() {
                let id = match &d.id {
                    Some(x) => x.clone(),
                    None => new_uuid(),
                };
                let name = if name_t.as_str().is_empty() {
                    String::from_str("unknown_tool")
                } else {
                    d.name.clone()
                };
                let arguments = if args_t.as_str().is_empty() {
                    String::from_str("{}")
                } else {
                    d.arguments.clone()
                };
                proof {
                    reveal_strlit("unknown_tool");
                    reveal_strlit("{}");
                }
                calls.push(ToolCall { id, name, arguments });
            }
            i = i + 1;
        }
        proof {
            assert(dv.take(dv.len() as int) =~= dv);
        }
        let text = if self.text.as_str().is_empty() {
            None
        } else {
            Some(self.text)
        };
        let usage = match self.usage {
            Some(u) => Some(
                TokenUsage {
                    prompt_tokens: match u.prompt_tokens {
                        Some(n) => n,
                        None => 0,
                    },
                    completion_tokens: match u.completion_tokens {
                        Some(n) => n,
                        None => 0,
                    },
                    total_tokens: match u.total_tokens {
                        Some(n) => n,
                        None => 0,
                    },
                },
            ),
            None => None,
        };
        ChatResponse { text, tool_calls: calls, usage }
    }
}
impl StreamAccumulator {
    /// The text so far.
    pub fn text(&self) -> (r: &str)
        ensures
            r@ == self.view().text,
    {
        self.text.as_str()
    }

    /// The latest usage reported.
    pub fn usage(&self) -> (r: Option<UsageCounts>)
        ensures
            r == self.view().usage,
    {
        self.usage
    }

    /// The number of tool call drafts opened so far.
    pub fn draft_count(&self) -> (r: usize)
        ensures
            r == self.view().drafts.len(),
    {
        self.drafts.len()
    }
}

proof fn lemma_choice_chunks(st: StreamView, c: JsonValue)
    ensures
        choice_step(st, c).0.text == st.text + choice_step(st, c).1.flatten(),
{
    let r = choice_step(st, c);
    if r.1.len() == 0 {
        assert(r.1.flatten() =~= Seq::<char>::empty());
        assert(st.text + r.1.flatten() =~= st.text);
    } else {
        r.1.lemma_flatten_one_element();
    }
}

proof fn lemma_choices_chunks(st: StreamView, cs: Seq<JsonValue>)
    ensures
        choices_step(st, cs).0.text == st.text + choices_step(st, cs).1.flatten(),
    decreases cs.len(),
{
    if cs.len() == 0 {
        assert(choices_step(st, cs).1.flatten() =~= Seq::<char>::empty());
        assert(st.text + Seq::<char>::empty() =~= st.text);
    } else {
        let prev = choices_step(st, cs.drop_last());
        lemma_choices_chunks(st, cs.drop_last());
        lemma_choice_chunks(prev.0, cs.last());
        let next = choice_step(prev.0, cs.last());
        vstd::seq_lib::lemma_flatten_concat(prev.1, next.1);
        assert(st.text + (prev.1 + next.1).flatten() =~= st.text + prev.1.flatten() + next.1.flatten());
    }
}

/// The text a stream has given is exactly the chunks it forwarded, in
/// order: an event appends to the text precisely the chunks it returns.
pub proof fn law_chunks_make_the_text(st: StreamView, v: JsonValue)
    ensures
        event_step(st, v).0.text == st.text + event_step(st, v).1.flatten(),
{
    let st1 = match get_key(v, "usage"@) {
        Some(u) => match usage_of(u) {
            Some(x) => StreamView { usage: Some(x), ..st },
            None => st,
        },
        None => st,
    };
    match get_key(v, "choices"@) {
        Some(c) => match json_array(c) {
            Some(cs) => lemma_choices_chunks(st1, cs),
            None => {
                assert(Seq::<Seq<char>>::empty().flatten() =~= Seq::<char>::empty());
                assert(st.text + Seq::<char>::empty() =~= st.text);
            },
        },
        None => {
            assert(Seq::<Seq<char>>::empty().flatten() =~= Seq::<char>::empty());
            assert(st.text + Seq::<char>::empty() =~= st.text);
        },
    }
}

} // verus!

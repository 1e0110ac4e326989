use vstd::prelude::*;

use base64::Engine;
use rand::RngCore;
use sha2::Digest;

use crate::permissions::{first_index, first_index_of};
use crate::urls::url_parse;
use crate::text::{
    chars_of, is_char_boundary, is_ws, lines, utf8_len, lemma_lex_order, lemma_lex_trans, lex_lt, lower, lower_char, occurs_at,
    slice_vec, string_from, string_from_range, to_lower_char, trim, trim_bounds, views,
};

verus! {

// ── Bearer challenges ───────────────────────────────────────────────────────

/// The parameters of a `WWW-Authenticate: Bearer` challenge, keyed by
/// lower-case name.
#[derive(Debug, Clone)]
pub struct BearerChallenge {
    params: Vec<(String, String)>,
}

/// The map that inserting the pairs of `ps` in order builds: a later pair
/// replaces an earlier one with the same key.
pub open spec fn pairs_map(ps: Seq<(String, String)>) -> Map<Seq<char>, Seq<char>>
    decreases ps.len(),
{
    if ps.len() == 0 {
        Map::empty()
    } else {
        pairs_map(ps.drop_last()).insert(ps.last().0@, ps.last().1@)
    }
}

impl View for BearerChallenge {
    type V = Map<Seq<char>, Seq<char>>;

    closed spec fn view(&self) -> Map<Seq<char>, Seq<char>> {
        pairs_map(self.params@)
    }
}

impl Default for BearerChallenge {
    fn default() -> (r: Self)
        ensures
            r@ == Map::<Seq<char>, Seq<char>>::empty(),
    {
        BearerChallenge { params: Vec::new() }
    }
}

impl BearerChallenge {
    /// The value of parameter `key`, named in any ASCII case.
    pub fn get(&self, key: &str) -> (r: Option<&str>)
        ensures
            match r {
                Some(v) => self@.contains_key(lower(key@)) && self@[lower(key@)] == v@,
                None => !self@.contains_key(lower(key@)),
            },
    {
        let k = crate::text::to_lower(key);
        let ghost ps = self.params@;
        let mut j: usize = self.params.len();
        proof {
            assert(ps.take(j as int) == ps);
        }
        while j > 0
            invariant
                j <= ps.len(),
                ps == self.params@,
                k@ == lower(key@),
                pairs_map(ps).contains_key(k@) == pairs_map(ps.take(j as int)).contains_key(k@),
                pairs_map(ps).contains_key(k@) ==> pairs_map(ps)[k@] == pairs_map(
                    ps.take(j as int),
                )[k@],
            decreases j,
        {
            proof {
                let t = ps.take(j as int);
                assert(t.drop_last() == ps.take(j - 1));
                assert(t.last() == ps[j - 1]);
            }
            if crate::text::str_eq(self.params[j - 1].0.as_str(), k.as_str()) {
                proof {
                    assert(pairs_map(ps.take(j as int)) == pairs_map(ps.take(j - 1)).insert(
                        ps[j - 1].0@,
                        ps[j - 1].1@,
                    ));
                }
                return Some(self.params[j - 1].1.as_str());
            }
            j = j - 1;
        }
        proof {
            assert(ps.take(0) =~= Seq::<(String, String)>::empty());
            assert(pairs_map(ps.take(0)) == Map::<Seq<char>, Seq<char>>::empty());
        }
        None
    }
}

/// `s` with each non-overlapping occurrence of `p`, from the left, replaced
/// by `q`, as `str::replace`.
pub open spec fn replace_all(s: Seq<char>, p: Seq<char>, q: Seq<char>) -> Seq<char>
    decreases s.len(),
{
    if s.len() == 0 || p.len() == 0 {
        s
    } else if occurs_at(s, p, 0) {
        q + replace_all(s.skip(p.len() as int), p, q)
    } else {
        seq![s[0]] + replace_all(s.skip(1), p, q)
    }
}

fn replace_all_of(s: &Vec<char>, p: &str, q: &str) -> (r: Vec<char>)
    requires
        p@.len() > 0,
    ensures
        r@ == replace_all(s@, p@, q@),
{
    let pv = chars_of(p);
    let qv = chars_of(q);
    let mut out: Vec<char> = Vec::new();
    let mut i: usize = 0;
    proof {
        assert(s@.skip(0) == s@);
        assert(out@ + replace_all(s@, p@, q@) =~= replace_all(s@, p@, q@));
    }
    while i < s.len()
        invariant
            i <= s.len(),
            pv@ == p@,
            qv@ == q@,
            p@.len() > 0,
            out@ + replace_all(s@.skip(i as int), p@, q@) == replace_all(s@, p@, q@),
        decreases s.len() - i,
    {
        let ghost rest = s@.skip(i as int);
        if crate::text::matches_at(s.as_slice(), pv.as_slice(), i) {
            proof {
                assert(rest.subrange(0, p@.len() as int) == s@.subrange(i as int, i + p@.len()));
                assert(rest.skip(p@.len() as int) == s@.skip(i + p@.len()));
                assert(out@ + qv@ + replace_all(s@.skip(i + p@.len()), p@, q@) == out@ + (q@
                    + replace_all(s@.skip(i + p@.len()), p@, q@)));
            }
            let ghost before = out@;
            let mut k: usize = 0;
            while k < qv.len()
                invariant
                    k <= qv.len(),
                    out@ == before + qv@.take(k as int),
                decreases qv.len() - k,
            {
                out.push(qv[k]);
                proof {
                    assert(qv@.take(k + 1) == qv@.take(k as int).push(qv@[k as int]));
                }
                k = k + 1;
            }
            proof {
                assert(qv@.take(qv@.len() as int) == qv@);
            }
            i = i + pv.len();
        } else {
            proof {
                if i + p@.len() <= s@.len() {
                    assert(rest.subrange(0, p@.len() as int) == s@.subrange(i as int, i + p@.len()));
                }
                assert(rest.skip(1) == s@.skip(i + 1));
                assert(rest[0] == s@[i as int]);
                assert(out@.push(s@[i as int]) + replace_all(s@.skip(i + 1), p@, q@) == out@ + (seq![
                    s@[i as int],
                ] + replace_all(s@.skip(i + 1), p@, q@)));
            }
            out.push(s[i]);
            i = i + 1;
        }
    }
    proof {
        assert(s@.skip(s@.len() as int) =~= Seq::<char>::empty());
    }
    out
}

/// The state of the comma split after some characters: the pieces so far,
/// where the current piece starts, and whether the scan is inside quotes or
/// just after a backslash there.
pub struct CommaScan {
    pub parts: Seq<Seq<char>>,
    pub start: int,
    pub in_quotes: bool,
    pub escape: bool,
}

pub open spec fn comma_step(st: CommaScan, s: Seq<char>, i: int) -> CommaScan {
    let c = s[i];
    if st.escape {
        CommaScan { escape: false, ..st }
    } else if c == '\\' {
        CommaScan { escape: st.in_quotes, ..st }
    } else if c == '"' {
        CommaScan { in_quotes: !st.in_quotes, ..st }
    } else if c == ',' && !st.in_quotes {
        CommaScan { parts: st.parts.push(s.subrange(st.start, i)), start: i + 1, ..st }
    } else {
        st
    }
}

pub open spec fn comma_scan(s: Seq<char>, n: int) -> CommaScan
    decreases n,
{
    if n <= 0 {
        CommaScan { parts: Seq::empty(), start: 0, in_quotes: false, escape: false }
    } else {
        comma_step(comma_scan(s, n - 1), s, n - 1)
    }
}

/// `s` split at the commas outside double quotes; a backslash inside quotes
/// escapes the next character.
pub open spec fn comma_split(s: Seq<char>) -> Seq<Seq<char>> {
    let st = comma_scan(s, s.len() as int);
    st.parts.push(s.subrange(st.start, s.len() as int))
}

fn split_comma_preserving_quotes(v: &Vec<char>) -> (r: Vec<Vec<char>>)
    ensures
        crate::text::cviews(r@) == comma_split(v@),
{
    let mut parts: Vec<Vec<char>> = Vec::new();
    let mut start: usize = 0;
    let mut in_quotes = false;
    let mut escape = false;
    let mut i: usize = 0;
    while i < v.len()
        invariant
            i <= v.len(),
            start <= i,
            ({
                let st = comma_scan(v@, i as int);
                &&& crate::text::cviews(parts@) == st.parts
                &&& start == st.start
                &&& in_quotes == st.in_quotes
                &&& escape == st.escape
            }),
        decreases v.len() - i,
    {
        let c = v[i];
        if escape {
            escape = false;
        } else if c == '\\' {
            escape = in_quotes;
        } else if c == '"' {
            in_quotes = !in_quotes;
        } else if c == ',' && !in_quotes {
            let piece = slice_vec(v.as_slice(), start, i);
            let ghost before = crate::text::cviews(parts@);
            parts.push(piece);
            proof {
                assert(crate::text::cviews(parts@) =~= before.push(v@.subrange(start as int, i as int)));
            }
            start = i + 1;
        }
        i = i + 1;
    }
    let last = slice_vec(v.as_slice(), start, v.len());
    let ghost before = crate::text::cviews(parts@);
    parts.push(last);
    proof {
        assert(crate::text::cviews(parts@) =~= before.push(v@.subrange(start as int, v@.len() as int)));
    }
    parts
}

/// `v` without one pair of surrounding double quotes.
pub open spec fn strip_quotes(v: Seq<char>) -> Seq<char> {
    if v.len() >= 2 && v[0] == '"' && v.last() == '"' {
        v.subrange(1, v.len() - 1)
    } else {
        v
    }
}

/// A quoted value's escapes undone: `\"` read as `"`, then `\\` as `\`.
pub open spec fn unescape(v: Seq<char>) -> Seq<char> {
    replace_all(replace_all(v, "\\\""@, "\""@), "\\\\"@, "\\"@)
}

/// The `key=value` pair of one piece of a challenge, key lower-cased;
/// `None` without `=` or with an empty key.
pub open spec fn challenge_param(part: Seq<char>) -> Option<(Seq<char>, Seq<char>)> {
    let seg = trim(part);
    match first_index(seg, '=') {
        Some(k) => {
            let key = lower(trim(seg.take(k)));
            if key.len() == 0 {
                None
            } else {
                Some((key, unescape(strip_quotes(trim(seg.skip(k + 1))))))
            }
        },
        None => None,
    }
}

/// The parameters of the pieces, a later one replacing an earlier one of
/// the same key.
pub open spec fn challenge_params(parts: Seq<Seq<char>>) -> Map<Seq<char>, Seq<char>>
    decreases parts.len(),
{
    if parts.len() == 0 {
        Map::empty()
    } else {
        let m = challenge_params(parts.drop_last());
        match challenge_param(parts.last()) {
            Some((k, v)) => m.insert(k, v),
            None => m,
        }
    }
}

/// A header value read as a Bearer challenge: after trimming it starts with
/// `bearer` in any ASCII case, and the rest is a comma-separated list of
/// `key=value` parameters.
pub open spec fn bearer_challenge(value: Seq<char>) -> Option<Map<Seq<char>, Seq<char>>> {
    let t = trim(value);
    if t.len() < 6 || !crate::text::eq_ignore_case(t.take(6), "bearer"@) {
        None
    } else {
        Some(challenge_params(comma_split(trim(t.skip(6)))))
    }
}

/// Parses the parameters of one comma-separated piece.
fn parse_param(part: &Vec<char>) -> (r: Option<(String, String)>)
    ensures
        match r {
            Some((k, v)) => challenge_param(part@) == Some((k@, v@)),
            None => challenge_param(part@) is None,
        },
{
    let (a, b) = trim_bounds(part.as_slice(), 0, part.len());
    proof {
        assert(part@.subrange(0, part@.len() as int) == part@);
    }
    let seg = slice_vec(part.as_slice(), a, b);
    let k = match first_index_of(seg.as_slice(), '=') {
        Some(k) => k,
        None => {
            return None;
        },
    };
    let (ka, kb) = trim_bounds(seg.as_slice(), 0, k);
    let mut key = String::new();
    let mut i: usize = ka;
    while i < kb
        invariant
            ka <= i <= kb,
            kb <= seg@.len(),
            key@ == lower(seg@.subrange(ka as int, i as int)),
        decreases kb - i,
    {
        key.push(to_lower_char(seg[i]));
        proof {
            assert(lower(seg@.subrange(ka as int, i + 1)) =~= lower(seg@.subrange(ka as int, i as int)).push(
                lower_char(seg@[i as int]),
            ));
        }
        i = i + 1;
    }
    proof {
        assert(seg@.subrange(0, k as int) == seg@.take(k as int));
    }
    if ka == kb {
        return None;
    }
    let (va, vb) = trim_bounds(seg.as_slice(), k + 1, seg.len());
    proof {
        assert(seg@.subrange(k + 1, seg@.len() as int) == seg@.skip(k + 1));
    }
    let mut x = va;
    let mut y = vb;
    if vb - va >= 2 && seg[va] == '"' && seg[vb - 1] == '"' {
        x = va + 1;
        y = vb - 1;
        proof {
            let t = seg@.subrange(va as int, vb as int);
            assert(t.subrange(1, t.len() - 1) == seg@.subrange(x as int, y as int));
        }
    }
    let raw = slice_vec(seg.as_slice(), x, y);
    proof {
        reveal_strlit("\\\"");
        reveal_strlit("\\\\");
    }
    let once = replace_all_of(&raw, "\\\"", "\"");
    let twice = replace_all_of(&once, "\\\\", "\\");
    Some((key, string_from(twice.as_slice())))
}

/// Reads a `WWW-Authenticate` value as a Bearer challenge; `None` for any
/// other scheme.
pub fn parse_bearer_www_authenticate(value: &str) -> (r: Option<BearerChallenge>)
    requires
        utf8_len(trim(value@)) < 6 || is_char_boundary(trim(value@), 6),
    ensures
        match r {
            Some(c) => bearer_challenge(value@) == Some(c@),
            None => bearer_challenge(value@) is None,
        },
{
    let v = chars_of(value);
    let (a, b) = trim_bounds(v.as_slice(), 0, v.len());
    proof {
        assert(v@.subrange(0, v@.len() as int) == v@);
    }
    let t = slice_vec(v.as_slice(), a, b);
    if t.len() < 6 {
        return None;
    }
    let head = string_from_range(t.as_slice(), 0, 6);
    proof {
        assert(t@.subrange(0, 6) == t@.take(6));
    }
    if !crate::text::eq_ignore_ascii_case(head.as_str(), "bearer") {
        return None;
    }
    let (pa, pb) = trim_bounds(t.as_slice(), 6, t.len());
    proof {
        assert(t@.subrange(6, t@.len() as int) == t@.skip(6));
    }
    let params = slice_vec(t.as_slice(), pa, pb);
    let parts = split_comma_preserving_quotes(&params);
    let mut out: Vec<(String, String)> = Vec::new();
    let mut i: usize = 0;
    while i < parts.len()
        invariant
            i <= parts.len(),
            pairs_map(out@) == challenge_params(crate::text::cviews(parts@).take(i as int)),
        decreases parts.len() - i,
    {
        proof {
            let q = crate::text::cviews(parts@).take(i + 1);
            assert(q.drop_last() == crate::text::cviews(parts@).take(i as int));
            assert(q.last() == parts@[i as int]@);
        }
        match parse_param(&parts[i]) {
            Some(kv) => {
                let ghost before = out@;
                out.push(kv);
                proof {
                    assert(out@.drop_last() == before);
                }
            },
            None => {},
        }
        i = i + 1;
    }
    proof {
        assert(crate::text::cviews(parts@).take(parts@.len() as int) == crate::text::cviews(parts@));
    }
    Some(BearerChallenge { params: out })
}

// ── Scopes ──────────────────────────────────────────────────────────────────

/// The pieces of `s` between whitespace characters, as `str::split` with
/// `char::is_whitespace`.
pub open spec fn ws_pieces(s: Seq<char>) -> Seq<Seq<char>>
    decreases s.len(),
{
    if s.len() == 0 {
        seq![Seq::<char>::empty()]
    } else {
        let init = ws_pieces(s.drop_last());
        if is_ws(s.last()) {
            init.push(Seq::<char>::empty())
        } else {
            init.update(init.len() - 1, init.last().push(s.last()))
        }
    }
}

proof fn lemma_ws_pieces_nonempty(s: Seq<char>)
    ensures
        ws_pieces(s).len() >= 1,
    decreases s.len(),
{
    if s.len() > 0 {
        lemma_ws_pieces_nonempty(s.drop_last());
    }
}

fn split_ws(v: &Vec<char>) -> (r: Vec<Vec<char>>)
    ensures
        crate::text::cviews(r@) == ws_pieces(v@),
{
    let mut parts: Vec<Vec<char>> = Vec::new();
    let mut cur: Vec<char> = Vec::new();
    let mut i: usize = 0;
    while i < v.len()
        invariant
            i <= v.len(),
            crate::text::cviews(parts@).push(cur@) == ws_pieces(v@.take(i as int)),
        decreases v.len() - i,
    {
        proof {
            let t = v@.take(i as int + 1);
            assert(t.drop_last() == v@.take(i as int));
            assert(t.last() == v@[i as int]);
            lemma_ws_pieces_nonempty(v@.take(i as int));
        }
        if crate::text::is_whitespace(v[i]) {
            let done = cur;
            parts.push(done);
            cur = Vec::new();
            proof {
                assert(crate::text::cviews(parts@).push(cur@) =~= ws_pieces(v@.take(i as int)).push(
                    Seq::<char>::empty(),
                ));
            }
        } else {
            let ghost old_parts = parts@;
            let ghost old_cur = cur@;
            cur.push(v[i]);
            proof {
                let prev = ws_pieces(v@.take(i as int));
                assert(prev == crate::text::cviews(old_parts).push(old_cur));
                assert(crate::text::cviews(parts@).push(cur@) =~= prev.update(
                    prev.len() - 1,
                    prev.last().push(v@[i as int]),
                ));
            }
        }
        i = i + 1;
    }
    parts.push(cur);
    proof {
        assert(v@.take(v.len() as int) == v@);
    }
    parts
}

/// Strictly increasing in `lex_lt`, so without repeats.
pub open spec fn sorted_strict(s: Seq<Seq<char>>) -> bool {
    forall|i: int, j: int| 0 <= i < j < s.len() ==> lex_lt(#[trigger] s[i], #[trigger] s[j])
}

/// The scopes to request: the configured ones, trimmed, and the
/// whitespace-separated words of the challenge's `scope`, without empties.
pub open spec fn scope_set(configured: Seq<Seq<char>>, challenge: Option<Seq<char>>) -> Set<Seq<char>> {
    Set::new(
        |w: Seq<char>|
            w.len() > 0 && ((exists|i: int| 0 <= i < configured.len() && trim(configured[i]) == w)
                || (challenge matches Some(c) && ws_pieces(c).contains(w))),
    )
}

/// Adds `x` to the sorted, repeat-free `out`, unless it is already there.
fn insert_sorted(out: &mut Vec<String>, x: String)
    requires
        sorted_strict(views(old(out)@)),
    ensures
        sorted_strict(views(final(out)@)),
        forall|w: Seq<char>|
            views(final(out)@).contains(w) <==> views(old(out)@).contains(w) || w == x@,
{
    let ghost old_v = views(out@);
    let ghost n = x@;
    let mut p: usize = 0;
    while p < out.len() && crate::text::str_less(out[p].as_str(), x.as_str())
        invariant
            p <= out@.len(),
            old_v == views(out@),
            n == x@,
            forall|q: int| 0 <= q < p ==> lex_lt(#[trigger] old_v[q], n),
        decreases out.len() - p,
    {
        p = p + 1;
    }
    if p < out.len() && crate::text::str_eq(out[p].as_str(), x.as_str()) {
        proof {
            assert forall|w: Seq<char>| views(out@).contains(w) || w == n implies views(
                out@,
            ).contains(w) by {
                if w == n {
                    assert(views(out@)[p as int] == n);
                }
            }
        }
        return ;
    }
    out.insert(p, x);
    proof {
        let new_v = views(out@);
        assert(new_v =~= old_v.insert(p as int, n));
        if p < old_v.len() {
            lemma_lex_order(old_v[p as int], n);
        }
        assert(sorted_strict(new_v)) by {
            assert forall|a: int, b: int| 0 <= a < b < new_v.len() implies lex_lt(
                #[trigger] new_v[a],
                #[trigger] new_v[b],
            ) by {
                if b < p {
                    assert(lex_lt(old_v[a], old_v[b]));
                } else if b == p {
                } else if a < p {
                    if b - 1 > p {
                        lemma_lex_trans(n, old_v[p as int], old_v[b - 1]);
                    }
                    lemma_lex_trans(old_v[a], n, old_v[b - 1]);
                } else if a == p {
                    if b - 1 > p {
                        lemma_lex_trans(n, old_v[p as int], old_v[b - 1]);
                    }
                } else {
                    assert(lex_lt(old_v[a - 1], old_v[b - 1]));
                }
            }
        }
        assert forall|w: Seq<char>| new_v.contains(w) <==> old_v.contains(w) || w == n by {
            if new_v.contains(w) {
                let k = choose|k: int| 0 <= k < new_v.len() && new_v[k] == w;
                if k < p {
                    assert(old_v[k] == w);
                } else if k > p {
                    assert(old_v[k - 1] == w);
                }
            }
            if old_v.contains(w) {
                let k = choose|k: int| 0 <= k < old_v.len() && old_v[k] == w;
                if k < p {
                    assert(new_v[k] == w);
                } else {
                    assert(new_v[k + 1] == w);
                }
            }
            if w == n {
                assert(new_v[p as int] == w);
            }
        }
    }
}

/// The configured scopes and those of the challenge, trimmed, deduplicated
/// and sorted, joined by spaces; `None` when there are none.
pub fn merge_scopes(configured_scopes: &Vec<String>, challenge_scope: Option<&str>) -> (r: Option<
    String,
>)
    ensures
        match r {
            None => forall|w: Seq<char>|
                !scope_set(views(configured_scopes@), opt_str(challenge_scope)).contains(w),
            Some(s) => exists|items: Seq<Seq<char>>|
                sorted_strict(items) && (forall|w: Seq<char>|
                    items.contains(w) <==> scope_set(
                        views(configured_scopes@),
                        opt_str(challenge_scope),
                    ).contains(w)) && s@ == crate::text::join(items, " "@),
        },
{
    let ghost cfg = views(configured_scopes@);
    let ghost ch = opt_str(challenge_scope);
    let mut out: Vec<String> = Vec::new();
    let mut i: usize = 0;
    while i < configured_scopes.len()
        invariant
            i <= configured_scopes.len(),
            cfg == views(configured_scopes@),
            sorted_strict(views(out@)),
            forall|w: Seq<char>|
                views(out@).contains(w) <==> (w.len() > 0 && exists|k: int|
                    0 <= k < i && trim(#[trigger] cfg[k]) == w),
        decreases configured_scopes.len() - i,
    {
        let t = crate::text::trim_str(configured_scopes[i].as_str());
        let ghost before = views(out@);
        if !t.as_str().is_empty() {
            insert_sorted(&mut out, t);
        }
        proof {
            assert forall|w: Seq<char>| views(out@).contains(w) <==> (w.len() > 0 && exists|k: int|
                0 <= k < i + 1 && trim(#[trigger] cfg[k]) == w) by {
                if w.len() > 0 && trim(cfg[i as int]) == w {
                }
            }
        }
        i = i + 1;
    }
    match challenge_scope {
        Some(scope) => {
            let sv = chars_of(scope);
            let pieces = split_ws(&sv);
            let mut j: usize = 0;
            while j < pieces.len()
                invariant
                    j <= pieces.len(),
                    sorted_strict(views(out@)),
                    crate::text::cviews(pieces@) == ws_pieces(scope@),
                    forall|w: Seq<char>|
                        views(out@).contains(w) <==> (w.len() > 0 && ((exists|k: int|
                            0 <= k < cfg.len() && trim(#[trigger] cfg[k]) == w)
                            || crate::text::cviews(pieces@).take(j as int).contains(w))),
                decreases pieces.len() - j,
            {
                let ghost before = views(out@);
                let piece = &pieces[j];
                proof {
                    assert(crate::text::cviews(pieces@).take(j + 1) =~= crate::text::cviews(
                        pieces@,
                    ).take(j as int).push(piece@));
                }
                if piece.len() > 0 {
                    insert_sorted(&mut out, string_from(piece.as_slice()));
                }
                proof {
                    let done = crate::text::cviews(pieces@).take(j as int);
                    let next = crate::text::cviews(pieces@).take(j + 1);
                    assert forall|w: Seq<char>| next.contains(w) <==> done.contains(w) || w == piece@ by {
                        if next.contains(w) {
                            let k = choose|k: int| 0 <= k < next.len() && next[k] == w;
                            if k < j {
                                assert(done[k] == w);
                            }
                        }
                        if done.contains(w) {
                            let k = choose|k: int| 0 <= k < done.len() && done[k] == w;
                            assert(next[k] == w);
                        }
                        if w == piece@ {
                            assert(next[j as int] == w);
                        }
                    }
                }
                j = j + 1;
            }
            proof {
                assert(crate::text::cviews(pieces@).take(pieces@.len() as int) == crate::text::cviews(
                    pieces@,
                ));
            }
        },
        None => {},
    }
    proof {
        assert forall|w: Seq<char>| views(out@).contains(w) <==> scope_set(cfg, ch).contains(w) by {
        }
    }
    if out.len() == 0 {
        proof {
            assert forall|w: Seq<char>| !scope_set(cfg, ch).contains(w) by {
                if scope_set(cfg, ch).contains(w) {
                    assert(views(out@).contains(w));
                }
            }
        }
        None
    } else {
        Some(crate::text::join_strings(&out, " "))
    }
}

pub open spec fn opt_str(o: Option<&str>) -> Option<Seq<char>> {
    match o {
        Some(s) => Some(s@),
        None => None,
    }
}

// ── Sessions ────────────────────────────────────────────────────────────────

/// Why an OAuth step failed.
pub struct OAuthError {
    pub message: String,
}

/// What is kept on disk between runs for one server.
pub struct OAuthPersistedState {
    pub client_id: Option<String>,
    pub client_secret: Option<String>,
    pub authorization_server: Option<String>,
    pub access_token: Option<String>,
    pub refresh_token: Option<String>,
    pub token_type: Option<String>,
    pub scope: Option<String>,
    pub expires_at_epoch_secs: Option<i64>,
}

impl Default for OAuthPersistedState {
    fn default() -> (r: Self)
        ensures
            r.client_id is None && r.client_secret is None && r.authorization_server is None
                && r.access_token is None && r.refresh_token is None && r.token_type is None
                && r.scope is None && r.expires_at_epoch_secs is None,
    {
        OAuthPersistedState {
            client_id: None,
            client_secret: None,
            authorization_server: None,
            access_token: None,
            refresh_token: None,
            token_type: None,
            scope: None,
            expires_at_epoch_secs: None,
        }
    }
}

/// The endpoints an authorization server publishes.
pub struct OAuthAuthorizationServerMetadata {
    pub issuer: String,
    pub authorization_endpoint: String,
    pub token_endpoint: String,
    pub registration_endpoint: Option<String>,
}

/// A token endpoint's answer.
pub struct OAuthTokenResponse {
    pub access_token: String,
    pub token_type: Option<String>,
    pub refresh_token: Option<String>,
    pub expires_in: Option<u64>,
    pub scope: Option<String>,
}

/// The OAuth state of one MCP server.
pub struct McpOAuthSession {
    pub server_name: String,
    pub mcp_url: String,
    pub auth_server_override: Option<String>,
    pub configured_client_id: Option<String>,
    pub configured_client_secret: Option<String>,
    pub configured_scopes: Vec<String>,
    pub state_path: String,
    pub state: OAuthPersistedState,
}

pub open spec fn ov(o: Option<String>) -> Option<Seq<char>> {
    crate::env::opt_view(o)
}

/// `s` when it holds more than whitespace.
pub open spec fn nonblank(s: Option<Seq<char>>) -> Option<Seq<char>> {
    match s {
        Some(v) => if trim(v).len() > 0 {
            Some(v)
        } else {
            None
        },
        None => None,
    }
}

/// The first option when it is set, else the second.
pub open spec fn or_else(a: Option<Seq<char>>, b: Option<Seq<char>>) -> Option<Seq<char>> {
    if a is Some {
        a
    } else {
        b
    }
}

/// `input` with every character other than an ASCII letter, digit, `-` or
/// `_` replaced by `_`; `_` when empty.
pub open spec fn sanitized(input: Seq<char>) -> Seq<char> {
    if input.len() == 0 {
        seq!['_']
    } else {
        Seq::new(
            input.len(),
            |i: int|
                {
                    let c = input[i];
                    if ('a' <= c && c <= 'z') || ('A' <= c && c <= 'Z') || ('0' <= c && c <= '9')
                        || c == '-' || c == '_' {
                        c
                    } else {
                        '_'
                    }
                },
        )
    }
}

/// A name made safe to use as a file name.
pub fn sanitize_file_component(input: &str) -> (r: String)
    ensures
        r@ == sanitized(input@),
{
    let v = chars_of(input);
    if v.len() == 0 {
        proof {
            reveal_strlit("_");
            assert("_"@ =~= seq!['_']);
        }
        return String::from_str("_");
    }
    let mut out = String::new();
    let mut i: usize = 0;
    while i < v.len()
        invariant
            i <= v.len(),
            v@ == input@,
            v@.len() > 0,
            out@ == sanitized(input@).take(i as int),
        decreases v.len() - i,
    {
        let c = v[i];
        let keep = ('a' <= c && c <= 'z') || ('A' <= c && c <= 'Z') || ('0' <= c && c <= '9') || c
            == '-' || c == '_';
        out.push(if keep { c } else { '_' });
        proof {
            assert(sanitized(input@).take(i + 1) =~= sanitized(input@).take(i as int).push(
                sanitized(input@)[i as int],
            ));
        }
        i = i + 1;
    }
    proof {
        assert(sanitized(input@).take(v@.len() as int) == sanitized(input@));
    }
    out
}

/// Where the state of server `name` is kept under `workspace_dir`.
pub open spec fn state_file(workspace_dir: Seq<char>, name: Seq<char>) -> Seq<char> {
    crate::config::path_join(
        crate::config::path_join(crate::config::path_join(workspace_dir, ".mcp"@), "oauth"@),
        sanitized(name) + ".json"@,
    )
}

/// The directory that holds the OAuth state files under `workspace_dir`.
pub fn state_dir(workspace_dir: &str) -> (r: String)
    ensures
        r@ == crate::config::path_join(crate::config::path_join(workspace_dir@, ".mcp"@), "oauth"@),
{
    let d = crate::config::join_path(workspace_dir, ".mcp");
    crate::config::join_path(d.as_str(), "oauth")
}

/// The trimmed configured scopes that are not empty.
pub open spec fn nonempty_scopes(scopes: Seq<Seq<char>>) -> Seq<Seq<char>>
    decreases scopes.len(),
{
    if scopes.len() == 0 {
        Seq::empty()
    } else {
        let init = nonempty_scopes(scopes.drop_last());
        let t = trim(scopes.last());
        if t.len() > 0 {
            init.push(t)
        } else {
            init
        }
    }
}

/// `config.url` trimmed, when it holds more than whitespace.
pub open spec fn oauth_url(config: crate::config::McpServerConfig) -> Option<Seq<char>> {
    match config.url {
        Some(u) => if trim(u@).len() > 0 {
            Some(trim(u@))
        } else {
            None
        },
        None => None,
    }
}

fn trimmed_scopes(scopes: &Vec<String>) -> (r: Vec<String>)
    ensures
        views(r@) == nonempty_scopes(views(scopes@)),
{
    let mut out: Vec<String> = Vec::new();
    let mut i: usize = 0;
    while i < scopes.len()
        invariant
            i <= scopes.len(),
            views(out@) == nonempty_scopes(views(scopes@).take(i as int)),
        decreases scopes.len() - i,
    {
        proof {
            let q = views(scopes@).take(i + 1);
            assert(q.drop_last() == views(scopes@).take(i as int));
            assert(q.last() == scopes@[i as int]@);
        }
        let t = crate::text::trim_str(scopes[i].as_str());
        if !t.as_str().is_empty() {
            let ghost before = views(out@);
            out.push(t);
            proof {
                assert(views(out@) =~= before.push(t@));
            }
        }
        i = i + 1;
    }
    proof {
        assert(views(scopes@).take(scopes@.len() as int) == views(scopes@));
    }
    out
}

fn clone_opt(o: &Option<String>) -> (r: Option<String>)
    ensures
        ov(r) == ov(*o),
{
    match o {
        Some(s) => Some(s.clone()),
        None => None,
    }
}

impl McpOAuthSession {
    /// The session of an OAuth server, given the state read from its state
    /// file (or the default state): `None` for a server that does not use
    /// OAuth. The configured client id, secret and authorization server
    /// replace the stored ones.
    pub fn new(
        config: &crate::config::McpServerConfig,
        workspace_dir: &str,
        loaded: OAuthPersistedState,
        env: &crate::env::Env,
    ) -> (r: Result<Option<Self>, OAuthError>)
        ensures
            config.auth_mode != crate::config::McpAuthMode::Oauth ==> r matches Ok(None),
            config.auth_mode == crate::config::McpAuthMode::Oauth ==> match oauth_url(*config) {
                None => r matches Err(e) && e.message@ == "oauth mode requires MCP server url"@,
                Some(url) => match config.oauth_secret(*env) {
                    Err(m) => r matches Err(e) && e.message@ == m,
                    Ok(secret) => r matches Ok(Some(s)) && {
                        &&& s.server_name@ == config.name@
                        &&& s.mcp_url@ == url
                        &&& ov(s.auth_server_override) == ov(config.oauth_authorization_server)
                        &&& ov(s.configured_client_id) == ov(config.oauth_client_id)
                        &&& ov(s.configured_client_secret) == secret
                        &&& views(s.configured_scopes@) == nonempty_scopes(views(config.oauth_scopes@))
                        &&& s.state_path@ == state_file(workspace_dir@, config.name@)
                        &&& ov(s.state.client_id) == or_else(ov(config.oauth_client_id), ov(loaded.client_id))
                        &&& ov(s.state.client_secret) == or_else(secret, ov(loaded.client_secret))
                        &&& ov(s.state.authorization_server) == or_else(
                            ov(config.oauth_authorization_server),
                            ov(loaded.authorization_server),
                        )
                        &&& ov(s.state.access_token) == ov(loaded.access_token)
                        &&& ov(s.state.refresh_token) == ov(loaded.refresh_token)
                        &&& ov(s.state.token_type) == ov(loaded.token_type)
                        &&& ov(s.state.scope) == ov(loaded.scope)
                        &&& s.state.expires_at_epoch_secs == loaded.expires_at_epoch_secs
                    },
                },
            },
    {
        match config.auth_mode {
            crate::config::McpAuthMode::Oauth => {},
            _ => {
                return Ok(None);
            },
        }
        let mcp_url = match &config.url {
            Some(u) => {
                let t = crate::text::trim_str(u.as_str());
                if t.as_str().is_empty() {
                    return Err(OAuthError { message: String::from_str("oauth mode requires MCP server url") });
                }
                t
            },
            None => {
                return Err(OAuthError { message: String::from_str("oauth mode requires MCP server url") });
            },
        };
        let mut file_name = sanitize_file_component(config.name.as_str());
        file_name.append(".json");
        let dir = state_dir(workspace_dir);
        let state_path = crate::config::join_path(dir.as_str(), file_name.as_str());
        let secret = match config.resolved_oauth_client_secret(env) {
            Ok(s) => s,
            Err(e) => {
                return Err(OAuthError { message: e.message });
            },
        };
        let mut state = loaded;
        if let Some(id) = &config.oauth_client_id {
            state.client_id = Some(id.clone());
        }
        if let Some(sec) = &secret {
            state.client_secret = Some(sec.clone());
        }
        if let Some(a) = &config.oauth_authorization_server {
            state.authorization_server = Some(a.clone());
        }
        Ok(
            Some(
                McpOAuthSession {
                    server_name: config.name.clone(),
                    mcp_url,
                    auth_server_override: clone_opt(&config.oauth_authorization_server),
                    configured_client_id: clone_opt(&config.oauth_client_id),
                    configured_client_secret: secret,
                    configured_scopes: trimmed_scopes(&config.oauth_scopes),
                    state_path,
                    state,
                },
            ),
        )
    }

    /// `Bearer <token>` for a stored access token that is not blank.
    pub fn authorization_header_value(&self) -> (r: Option<String>)
        ensures
            match nonblank(ov(self.state.access_token)) {
                Some(t) => r matches Some(h) && h@ == "Bearer "@ + t,
                None => r is None,
            },
    {
        match &self.state.access_token {
            Some(token) => {
                let t = crate::text::trim_str(token.as_str());
                if t.as_str().is_empty() {
                    None
                } else {
                    let mut h = String::from_str("Bearer ");
                    h.append(token.as_str());
                    Some(h)
                }
            },
            None => None,
        }
    }

    /// The configured client id, else the stored one, when not blank.
    pub fn effective_client_id(&self) -> (r: Option<String>)
        ensures
            ov(r) == nonblank(or_else(ov(self.configured_client_id), ov(self.state.client_id))),
    {
        let c = match &self.configured_client_id {
            Some(c) => Some(c.clone()),
            None => clone_opt(&self.state.client_id),
        };
        keep_nonblank(c)
    }

    /// The configured client secret, else the stored one, when not blank.
    pub fn effective_client_secret(&self) -> (r: Option<String>)
        ensures
            ov(r) == nonblank(or_else(ov(self.configured_client_secret), ov(self.state.client_secret))),
    {
        let c = match &self.configured_client_secret {
            Some(c) => Some(c.clone()),
            None => clone_opt(&self.state.client_secret),
        };
        keep_nonblank(c)
    }

    /// Whether the access token is to be refreshed at time `now`: there is
    /// one, with an expiry less than 30 seconds away, and a refresh token.
    pub fn refresh_due(&self, now: i64) -> (r: bool)
        requires
            now <= i64::MAX - 30,
        ensures
            r == (self.state.access_token is Some && (match self.state.expires_at_epoch_secs {
                Some(e) => now + 30 >= e,
                None => false,
            }) && self.state.refresh_token is Some),
    {
        if self.state.access_token.is_none() {
            return false;
        }
        match self.state.expires_at_epoch_secs {
            None => false,
            Some(e) => {
                if now + 30 < e {
                    return false;
                }
                self.state.refresh_token.is_some()
            },
        }
    }

    /// Takes in a refresh answer at time `now`: the new access token, the new
    /// refresh token if one came, its type, its scope if one came, and its
    /// expiry.
    pub fn apply_refresh_response(&mut self, resp: OAuthTokenResponse, now: i64)
        requires
            resp.expires_in matches Some(e) ==> e <= i64::MAX && now + e <= i64::MAX && now + e
                >= i64::MIN,
        ensures
            ov(final(self).state.access_token) == Some(resp.access_token@),
            ov(final(self).state.refresh_token) == or_else(
                ov(resp.refresh_token),
                ov(old(self).state.refresh_token),
            ),
            ov(final(self).state.token_type) == ov(resp.token_type),
            ov(final(self).state.scope) == or_else(ov(resp.scope), ov(old(self).state.scope)),
            final(self).state.expires_at_epoch_secs == match resp.expires_in {
                Some(e) => Some((now + e) as i64),
                None => None,
            },
            ov(final(self).state.client_id) == ov(old(self).state.client_id),
            ov(final(self).state.client_secret) == ov(old(self).state.client_secret),
            ov(final(self).state.authorization_server) == ov(old(self).state.authorization_server),
    {
        let OAuthTokenResponse { access_token, token_type, refresh_token, expires_in, scope } = resp;
        self.state.access_token = Some(access_token);
        if refresh_token.is_some() {
            self.state.refresh_token = refresh_token;
        }
        self.state.token_type = token_type;
        if scope.is_some() {
            self.state.scope = scope;
        }
        self.state.expires_at_epoch_secs = match expires_in {
            Some(e) => Some(now + e as i64),
            None => None,
        };
    }

    /// Takes in the answer to an authorization-code exchange at time `now`,
    /// made with `client_id`, `client_secret` and the requested `scope`
    /// against the server `issuer`.
    pub fn apply_authorization_response(
        &mut self,
        resp: OAuthTokenResponse,
        requested_scope: Option<String>,
        client_id: String,
        client_secret: Option<String>,
        issuer: String,
        now: i64,
    )
        requires
            resp.expires_in matches Some(e) ==> e <= i64::MAX && now + e <= i64::MAX && now + e
                >= i64::MIN,
        ensures
            ov(final(self).state.access_token) == Some(resp.access_token@),
            ov(final(self).state.refresh_token) == or_else(
                ov(resp.refresh_token),
                ov(old(self).state.refresh_token),
            ),
            ov(final(self).state.token_type) == ov(resp.token_type),
            ov(final(self).state.scope) == or_else(ov(resp.scope), ov(requested_scope)),
            final(self).state.expires_at_epoch_secs == match resp.expires_in {
                Some(e) => Some((now + e) as i64),
                None => None,
            },
            ov(final(self).state.client_id) == Some(client_id@),
            ov(final(self).state.client_secret) == or_else(
                ov(client_secret),
                ov(old(self).state.client_secret),
            ),
            ov(final(self).state.authorization_server) == Some(issuer@),
    {
        let OAuthTokenResponse { access_token, token_type, refresh_token, expires_in, scope } = resp;
        self.state.access_token = Some(access_token);
        if refresh_token.is_some() {
            self.state.refresh_token = refresh_token;
        }
        self.state.token_type = token_type;
        self.state.scope = if scope.is_some() {
            scope
        } else {
            requested_scope
        };
        self.state.expires_at_epoch_secs = match expires_in {
            Some(e) => Some(now + e as i64),
            None => None,
        };
        self.state.client_id = Some(client_id);
        if client_secret.is_some() {
            self.state.client_secret = client_secret;
        }
        self.state.authorization_server = Some(issuer);
    }
}

fn keep_nonblank(c: Option<String>) -> (r: Option<String>)
    ensures
        ov(r) == nonblank(ov(c)),
{
    match c {
        Some(v) => {
            if crate::text::trim_str(v.as_str()).as_str().is_empty() {
                None
            } else {
                Some(v)
            }
        },
        None => None,
    }
}

// ── URLs ────────────────────────────────────────────────────────────────────

/// `scheme://host[:port]` of a URL, or the error message.
pub open spec fn origin_of(url: Seq<char>) -> Result<Seq<char>, Seq<char>> {
    match crate::urls::url_parse(url) {
        Err(_) => Err("invalid MCP url '"@ + url + "'"@),
        Ok((scheme, host, port, _path, _query)) => match host {
            None => Err("MCP url has no host: "@ + url),
            Some(h) => Ok(
                match port {
                    Some(p) => scheme + "://"@ + h + ":"@ + crate::text::decimal_text(p as nat),
                    None => scheme + "://"@ + h,
                },
            ),
        },
    }
}

pub open spec fn result_view(r: Result<String, OAuthError>) -> Result<Seq<char>, Seq<char>> {
    match r {
        Ok(s) => Ok(s@),
        Err(e) => Err(e.message@),
    }
}

fn oauth_error3(a: &str, b: &str, c: &str) -> (r: OAuthError)
    ensures
        r.message@ == a@ + b@ + c@,
{
    let mut m = String::from_str(a);
    m.append(b);
    m.append(c);
    OAuthError { message: m }
}

impl McpOAuthSession {
    /// The origin of the MCP server's URL.
    pub fn mcp_origin(&self) -> (r: Result<String, OAuthError>)
        ensures
            result_view(r) == origin_of(self.mcp_url@),
    {
        let parts = match crate::urls::parse_url(self.mcp_url.as_str()) {
            Ok(p) => p,
            Err(_) => {
                return Err(oauth_error3("invalid MCP url '", self.mcp_url.as_str(), "'"));
            },
        };
        let host = match &parts.host {
            Some(h) => h,
            None => {
                proof {
                    reveal_strlit("");
                    assert("MCP url has no host: "@ + self.mcp_url@ + ""@ =~= "MCP url has no host: "@
                        + self.mcp_url@);
                }
                return Err(oauth_error3("MCP url has no host: ", self.mcp_url.as_str(), ""));
            },
        };
        let mut out = parts.scheme.clone();
        out.append("://");
        out.append(host.as_str());
        if let Some(p) = parts.port {
            out.append(":");
            crate::text::push_decimal(&mut out, p as u64);
        }
        Ok(out)
    }
}

/// The metadata document to fetch for an issuer: the URL itself when its
/// path already names the well-known document, else the well-known path
/// under it.
pub open spec fn candidate_url(issuer: Seq<char>) -> Result<Seq<char>, Seq<char>> {
    match crate::urls::url_parse(issuer) {
        Err(_) => Err("invalid OAuth URL '"@ + issuer + "'"@),
        Ok((_s, _h, _p, path, _q)) => if crate::text::contains_seq(
            path,
            "/.well-known/oauth-authorization-server"@,
        ) {
            Ok(issuer)
        } else {
            Ok(
                crate::text::trim_end_char(issuer, '/') + "/.well-known/oauth-authorization-server"@,
            )
        },
    }
}

/// The authorization server metadata URL for an issuer or metadata URL.
pub fn candidate_metadata_url(issuer_or_metadata_url: &str) -> (r: Result<String, OAuthError>)
    ensures
        result_view(r) == candidate_url(issuer_or_metadata_url@),
{
    let parts = match crate::urls::parse_url(issuer_or_metadata_url) {
        Ok(p) => p,
        Err(_) => {
            return Err(oauth_error3("invalid OAuth URL '", issuer_or_metadata_url, "'"));
        },
    };
    let path = chars_of(parts.path.as_str());
    let well_known = chars_of("/.well-known/oauth-authorization-server");
    if crate::text::contains(path.as_slice(), well_known.as_slice()) {
        return Ok(String::from_str(issuer_or_metadata_url));
    }
    let v = chars_of(issuer_or_metadata_url);
    let e = crate::text::trim_end_char_len(v.as_slice(), v.len(), '/');
    proof {
        assert(v@.take(v@.len() as int) == v@);
        assert(v@.subrange(0, e as int) == v@.take(e as int));
    }
    let mut out = string_from_range(v.as_slice(), 0, e);
    out.append("/.well-known/oauth-authorization-server");
    Ok(out)
}

/// The view of name/value pairs.
pub open spec fn pair_views(ps: Seq<(String, String)>) -> Seq<(Seq<char>, Seq<char>)> {
    ps.map_values(|p: (String, String)| (p.0@, p.1@))
}

/// What `url::Url::parse` and appending the pairs with `query_pairs_mut`
/// make of a base URL, serialized; `None` when the base does not parse.
pub uninterp spec fn url_with_query(base: Seq<char>, pairs: Seq<(Seq<char>, Seq<char>)>) -> Option<
    Seq<char>,
>;

/// Parses `base` with `url::Url::parse`, appends each pair with
/// `query_pairs_mut().append_pair` (form-urlencoded) and serializes the URL.
/// The contract names the result only.
#[verifier::external_body]
fn append_query(base: &str, pairs: &Vec<(String, String)>) -> (r: Option<String>)
    ensures
        crate::env::opt_view(r) == url_with_query(base@, pair_views(pairs@)),
{
    let mut url = url::Url::parse(base).ok()?;
    {
        let mut query = url.query_pairs_mut();
        for (k, v) in pairs {
            query.append_pair(k, v);
        }
    }
    Some(url.to_string())
}

fn pair(k: &str, v: &str) -> (r: (String, String))
    ensures
        r.0@ == k@,
        r.1@ == v@,
{
    (String::from_str(k), String::from_str(v))
}

/// The query parameters of an authorization request.
pub open spec fn authorize_params(
    client_id: Seq<char>,
    redirect_uri: Seq<char>,
    code_challenge: Seq<char>,
    state: Seq<char>,
    resource: Seq<char>,
    scope: Option<Seq<char>>,
) -> Seq<(Seq<char>, Seq<char>)> {
    seq![
        ("response_type"@, "code"@),
        ("client_id"@, client_id),
        ("redirect_uri"@, redirect_uri),
        ("code_challenge"@, code_challenge),
        ("code_challenge_method"@, "S256"@),
        ("state"@, state),
        ("resource"@, resource),
    ] + match scope {
        Some(s) => seq![("scope"@, s)],
        None => Seq::empty(),
    }
}

/// The URL the browser is sent to for authorization.
pub fn build_authorize_url(
    authorization_endpoint: &str,
    client_id: &str,
    redirect_uri: &str,
    code_challenge: &str,
    state: &str,
    resource: &str,
    scope: Option<&str>,
) -> (r: Result<String, OAuthError>)
    ensures
        result_view(r) == match url_with_query(
            authorization_endpoint@,
            authorize_params(client_id@, redirect_uri@, code_challenge@, state@, resource@, opt_str(scope)),
        ) {
            Some(u) => Ok(u),
            None => Err("invalid authorization endpoint '"@ + authorization_endpoint@ + "'"@),
        },
{
    let mut pairs: Vec<(String, String)> = Vec::new();
    pairs.push(pair("response_type", "code"));
    pairs.push(pair("client_id", client_id));
    pairs.push(pair("redirect_uri", redirect_uri));
    pairs.push(pair("code_challenge", code_challenge));
    pairs.push(pair("code_challenge_method", "S256"));
    pairs.push(pair("state", state));
    pairs.push(pair("resource", resource));
    if let Some(s) = scope {
        pairs.push(pair("scope", s));
    }
    proof {
        assert(pair_views(pairs@) =~= authorize_params(
            client_id@,
            redirect_uri@,
            code_challenge@,
            state@,
            resource@,
            opt_str(scope),
        ));
    }
    match append_query(authorization_endpoint, &pairs) {
        Some(u) => Ok(u),
        None => Err(oauth_error3("invalid authorization endpoint '", authorization_endpoint, "'")),
    }
}

// ── PKCE ────────────────────────────────────────────────────────────────────

/// The URL-safe base64 alphabet: `A-Z`, `a-z`, `0-9`, `-`, `_`.
pub open spec fn b64_char(v: int) -> char {
    if v < 26 {
        (65 + v) as char
    } else if v < 52 {
        (97 + v - 26) as char
    } else if v < 62 {
        (48 + v - 52) as char
    } else if v == 62 {
        '-'
    } else {
        '_'
    }
}

/// URL-safe base64 without padding (RFC 4648 section 5): each group of three
/// bytes gives four characters, a final one or two bytes give two or three.
pub open spec fn base64_url(data: Seq<u8>) -> Seq<char>
    decreases data.len(),
{
    if data.len() == 0 {
        Seq::empty()
    } else if data.len() == 1 {
        let a = data[0] as int;
        seq![b64_char(a / 4), b64_char((a % 4) * 16)]
    } else if data.len() == 2 {
        let a = data[0] as int;
        let b = data[1] as int;
        seq![b64_char(a / 4), b64_char((a % 4) * 16 + b / 16), b64_char((b % 16) * 4)]
    } else {
        let a = data[0] as int;
        let b = data[1] as int;
        let c = data[2] as int;
        seq![
            b64_char(a / 4),
            b64_char((a % 4) * 16 + b / 16),
            b64_char((b % 16) * 4 + c / 64),
            b64_char(c % 64),
        ] + base64_url(data.skip(3))
    }
}

/// Calls `URL_SAFE_NO_PAD.encode` of the `base64` crate: the URL-safe
/// alphabet without padding, as RFC 4648 defines it.
#[verifier::external_body]
fn base64_url_encode(data: &[u8]) -> (r: String)
    ensures
        r@ == base64_url(data@),
{
    base64::engine::general_purpose::URL_SAFE_NO_PAD.encode(data)
}

/// The SHA-256 digest of a byte string.
pub uninterp spec fn sha256_digest(data: Seq<u8>) -> Seq<u8>;

/// Calls `sha2::Sha256::digest`. The contract names the digest, which is
/// 32 bytes long; the hash function itself is not restated.
#[verifier::external_body]
fn sha256(data: &[u8]) -> (r: Vec<u8>)
    ensures
        r@ == sha256_digest(data@),
        r@.len() == 32,
{
    sha2::Sha256::digest(data).to_vec()
}

/// Calls `rand::thread_rng().fill_bytes` on `n` zero bytes. The bytes are
/// random: only their number is stated.
#[verifier::external_body]
fn random_bytes(n: usize) -> (r: Vec<u8>)
    ensures
        r@.len() == n,
{
    let mut data = vec![0u8; n];
    rand::thread_rng().fill_bytes(&mut data);
    data
}

/// The PKCE `S256` challenge of a verifier: its SHA-256 digest in URL-safe
/// base64.
pub fn pkce_s256_challenge(verifier: &str) -> (r: String)
    ensures
        r@ == base64_url(sha256_digest(vstd::utf8::encode_utf8(verifier@))),
{
    let digest = sha256(verifier.as_bytes());
    base64_url_encode(digest.as_slice())
}

/// `bytes` random bytes in URL-safe base64.
pub fn random_token(bytes: usize) -> (r: String)
    ensures
        exists|data: Seq<u8>| data.len() == bytes && r@ == base64_url(data),
{
    let data = random_bytes(bytes);
    base64_url_encode(data.as_slice())
}

// ── The browser callback ───────────────────────────────────────────────────

/// The path the browser is sent back to.
pub const OAUTH_CALLBACK_PATH: &'static str = "/oauth/callback";

/// The non-empty pieces of a whitespace split.
pub open spec fn words(pieces: Seq<Seq<char>>) -> Seq<Seq<char>>
    decreases pieces.len(),
{
    if pieces.len() == 0 {
        Seq::empty()
    } else if pieces.last().len() == 0 {
        words(pieces.drop_last())
    } else {
        words(pieces.drop_last()).push(pieces.last())
    }
}

pub open spec fn nth_or_empty(s: Seq<Seq<char>>, i: int) -> Seq<char> {
    if 0 <= i < s.len() {
        s[i]
    } else {
        Seq::empty()
    }
}

/// The value of the last pair named `key`.
pub open spec fn last_value(pairs: Seq<(Seq<char>, Seq<char>)>, key: Seq<char>) -> Option<Seq<char>>
    decreases pairs.len(),
{
    if pairs.len() == 0 {
        None
    } else if pairs.last().0 == key {
        Some(pairs.last().1)
    } else {
        last_value(pairs.drop_last(), key)
    }
}

/// What the callback listener answers and what it concludes from the
/// request it read: the authorization code and state, or why there are
/// none.
pub open spec fn callback_spec(request: Seq<char>, expected_path: Seq<char>) -> (
    Option<(u16, Seq<char>)>,
    Result<(Seq<char>, Seq<char>), Seq<char>>,
) {
    if request.len() == 0 {
        (None, Err("received empty OAuth callback request"@))
    } else if lines(request).len() == 0 {
        (None, Err("invalid OAuth callback request line"@))
    } else {
        let ws = words(ws_pieces(lines(request)[0]));
        let method = nth_or_empty(ws, 0);
        let target = nth_or_empty(ws, 1);
        match url_parse("http://localhost"@ + target) {
            Err(_) => (None, Err("failed to parse OAuth callback URL"@)),
            Ok((_s, _h, _p, path, pairs)) => if method != "GET"@ || path != expected_path {
                (
                    Some((400u16, "Invalid callback request. You can close this tab."@)),
                    Err("unexpected OAuth callback target '"@ + method + " "@ + path + "'"@),
                )
            } else {
                match last_value(pairs, "error"@) {
                    Some(e) => (
                        Some((400u16, "OAuth authorization failed. You can close this tab."@)),
                        Err(
                            "OAuth callback error: "@ + e + " "@ + match last_value(
                                pairs,
                                "error_description"@,
                            ) {
                                Some(d) => d,
                                None => Seq::empty(),
                            },
                        ),
                    ),
                    None => match last_value(pairs, "code"@) {
                        None => (None, Err("OAuth callback is missing 'code' parameter"@)),
                        Some(code) => match last_value(pairs, "state"@) {
                            None => (None, Err("OAuth callback is missing 'state' parameter"@)),
                            Some(st) => (
                                Some((200u16, "OAuth login completed. You can close this tab."@)),
                                Ok((code, st)),
                            ),
                        },
                    },
                }
            },
        }
    }
}

/// The listener's reply (status and message) and its conclusion.
pub struct CallbackOutcome {
    pub reply: Option<(u16, String)>,
    pub result: Result<(String, String), String>,
}

pub open spec fn outcome_view(o: CallbackOutcome) -> (
    Option<(u16, Seq<char>)>,
    Result<(Seq<char>, Seq<char>), Seq<char>>,
) {
    (
        match o.reply {
            Some((c, b)) => Some((c, b@)),
            None => None,
        },
        match o.result {
            Ok((c, s)) => Ok((c@, s@)),
            Err(e) => Err(e@),
        },
    )
}

fn words_of(v: &Vec<char>) -> (r: Vec<Vec<char>>)
    ensures
        crate::text::cviews(r@) == words(ws_pieces(v@)),
{
    let pieces = split_ws(v);
    let mut out: Vec<Vec<char>> = Vec::new();
    let mut i: usize = 0;
    while i < pieces.len()
        invariant
            i <= pieces@.len(),
            crate::text::cviews(pieces@) == ws_pieces(v@),
            crate::text::cviews(out@) == words(crate::text::cviews(pieces@).take(i as int)),
        decreases pieces.len() - i,
    {
        let ghost t = crate::text::cviews(pieces@).take(i + 1);
        proof {
            assert(t.drop_last() =~= crate::text::cviews(pieces@).take(i as int));
            assert(t.last() == pieces@[i as int]@);
        }
        if pieces[i].len() > 0 {
            let ghost before = out@;
            out.push(slice_vec(pieces[i].as_slice(), 0, pieces[i].len()));
            proof {
                assert(pieces@[i as int]@.subrange(0, pieces@[i as int]@.len() as int) =~= pieces@[i as int]@);
                assert(crate::text::cviews(out@) =~= crate::text::cviews(before).push(pieces@[i as int]@));
            }
        }
        i = i + 1;
    }
    proof {
        assert(crate::text::cviews(pieces@).take(pieces@.len() as int) =~= crate::text::cviews(pieces@));
    }
    out
}

fn last_value_of(pairs: &Vec<(String, String)>, key: &str) -> (r: Option<String>)
    ensures
        crate::env::opt_view(r) == last_value(crate::urls::pair_views(pairs@), key@),
{
    let mut found: Option<String> = None;
    let mut i: usize = 0;
    while i < pairs.len()
        invariant
            i <= pairs@.len(),
            crate::env::opt_view(found) == last_value(crate::urls::pair_views(pairs@).take(i as int), key@),
        decreases pairs.len() - i,
    {
        let ghost t = crate::urls::pair_views(pairs@).take(i + 1);
        proof {
            assert(t.drop_last() =~= crate::urls::pair_views(pairs@).take(i as int));
            assert(t.last() == (pairs@[i as int].0@, pairs@[i as int].1@));
        }
        if crate::text::str_eq(pairs[i].0.as_str(), key) {
            found = Some(pairs[i].1.clone());
        }
        i = i + 1;
    }
    proof {
        assert(crate::urls::pair_views(pairs@).take(pairs@.len() as int) =~= crate::urls::pair_views(pairs@));
    }
    found
}

fn failed_callback(reply: Option<(u16, String)>, e: String) -> (r: CallbackOutcome)
    ensures
        outcome_view(r).0 == match reply {
            Some((c, b)) => Some((c, b@)),
            None => None,
        },
        outcome_view(r).1 == Err::<(Seq<char>, Seq<char>), Seq<char>>(e@),
{
    CallbackOutcome { reply, result: Err(e) }
}

/// Reads the browser's request to the callback listener.
pub fn read_callback(request: &str, expected_path: &str) -> (r: CallbackOutcome)
    ensures
        outcome_view(r) == callback_spec(request@, expected_path@),
{
    let v = chars_of(request);
    if v.len() == 0 {
        return failed_callback(None, String::from_str("received empty OAuth callback request"));
    }
    let ls = crate::text::lines_of(v.as_slice());
    if ls.len() == 0 {
        return failed_callback(None, String::from_str("invalid OAuth callback request line"));
    }
    proof {
        assert(crate::text::cviews(ls@)[0] == ls@[0]@);
    }
    let first = slice_vec(ls[0].as_slice(), 0, ls[0].len());
    proof {
        assert(ls@[0]@.subrange(0, ls@[0]@.len() as int) =~= ls@[0]@);
    }
    let ws = words_of(&first);
    let method = if ws.len() > 0 {
        string_from(ws[0].as_slice())
    } else {
        String::new()
    };
    let target = if ws.len() > 1 {
        string_from(ws[1].as_slice())
    } else {
        String::new()
    };
    proof {
        if ws@.len() > 0 {
            assert(crate::text::cviews(ws@)[0] == ws@[0]@);
        }
        if ws@.len() > 1 {
            assert(crate::text::cviews(ws@)[1] == ws@[1]@);
        }
    }
    let mut url = String::from_str("http://localhost");
    url.append(target.as_str());
    let parts = match crate::urls::parse_url(url.as_str()) {
        Ok(p) => p,
        Err(_) => {
            return failed_callback(None, String::from_str("failed to parse OAuth callback URL"));
        },
    };
    if !crate::text::str_eq(method.as_str(), "GET") || !crate::text::str_eq(parts.path.as_str(), expected_path) {
        let mut e = String::from_str("unexpected OAuth callback target '");
        e.append(method.as_str());
        e.append(" ");
        e.append(parts.path.as_str());
        e.append("'");
        return failed_callback(
            Some((400, String::from_str("Invalid callback request. You can close this tab."))),
            e,
        );
    }
    match last_value_of(&parts.query_pairs, "error") {
        Some(err) => {
            let mut e = String::from_str("OAuth callback error: ");
            e.append(err.as_str());
            e.append(" ");
            match last_value_of(&parts.query_pairs, "error_description") {
                Some(d) => e.append(d.as_str()),
                None => {},
            }
            proof {
                reveal_strlit("");
            }
            return failed_callback(
                Some((400, String::from_str("OAuth authorization failed. You can close this tab."))),
                e,
            );
        },
        None => {},
    }
    let code = match last_value_of(&parts.query_pairs, "code") {
        Some(c) => c,
        None => {
            return failed_callback(None, String::from_str("OAuth callback is missing 'code' parameter"));
        },
    };
    let state = match last_value_of(&parts.query_pairs, "state") {
        Some(s) => s,
        None => {
            return failed_callback(None, String::from_str("OAuth callback is missing 'state' parameter"));
        },
    };
    CallbackOutcome {
        reply: Some((200, String::from_str("OAuth login completed. You can close this tab."))),
        result: Ok((code, state)),
    }
}

/// The status line text for a reply code.
pub open spec fn reply_status(code: u16) -> Seq<char> {
    if code == 200 {
        "200 OK"@
    } else if code == 400 {
        "400 Bad Request"@
    } else {
        "500 Internal Server Error"@
    }
}

pub open spec fn reply_html(body: Seq<char>) -> Seq<char> {
    "<!doctype html><html><body><p>"@ + body + "</p></body></html>"@
}

/// The HTTP response the listener writes back to the browser.
pub open spec fn reply_text(code: u16, body: Seq<char>) -> Seq<char> {
    "HTTP/1.1 "@ + reply_status(code) + "\r\nContent-Type: text/html; charset=utf-8\r\nContent-Length: "@
        + crate::text::decimal_text(utf8_len(reply_html(body)) as nat) + "\r\nConnection: close\r\n\r\n"@
        + reply_html(body)
}

/// The HTTP response for a reply.
pub fn callback_response_text(code: u16, body: &str) -> (r: String)
    ensures
        r@ == reply_text(code, body@),
{
    let mut html = String::from_str("<!doctype html><html><body><p>");
    html.append(body);
    html.append("</p></body></html>");
    let hv = chars_of(html.as_str());
    let n = crate::text::utf8_len_of(hv.as_slice());
    let mut out = String::from_str("HTTP/1.1 ");
    if code == 200 {
        out.append("200 OK");
    } else if code == 400 {
        out.append("400 Bad Request");
    } else {
        out.append("500 Internal Server Error");
    }
    out.append("\r\nContent-Type: text/html; charset=utf-8\r\nContent-Length: ");
    crate::text::push_decimal_wide(&mut out, n);
    out.append("\r\nConnection: close\r\n\r\n");
    out.append(html.as_str());
    proof {
        assert(out@ =~= reply_text(code, body@));
    }
    out
}

/// The token request's form for an authorization code.
pub fn code_exchange_form(
    code: &str,
    redirect_uri: &str,
    client_id: &str,
    code_verifier: &str,
    client_secret: Option<&str>,
) -> (r: Vec<(String, String)>)
    ensures
        crate::urls::pair_views(r@) == seq![
            ("grant_type"@, "authorization_code"@),
            ("code"@, code@),
            ("redirect_uri"@, redirect_uri@),
            ("client_id"@, client_id@),
            ("code_verifier"@, code_verifier@),
        ] + match client_secret {
            Some(s) => seq![("client_secret"@, s@)],
            None => Seq::empty(),
        },
{
    let mut form: Vec<(String, String)> = Vec::new();
    form.push((String::from_str("grant_type"), String::from_str("authorization_code")));
    form.push((String::from_str("code"), String::from_str(code)));
    form.push((String::from_str("redirect_uri"), String::from_str(redirect_uri)));
    form.push((String::from_str("client_id"), String::from_str(client_id)));
    form.push((String::from_str("code_verifier"), String::from_str(code_verifier)));
    match client_secret {
        Some(s) => form.push((String::from_str("client_secret"), String::from_str(s))),
        None => {},
    }
    proof {
        assert(crate::urls::pair_views(form@) =~= seq![
            ("grant_type"@, "authorization_code"@),
            ("code"@, code@),
            ("redirect_uri"@, redirect_uri@),
            ("client_id"@, client_id@),
            ("code_verifier"@, code_verifier@),
        ] + match client_secret {
            Some(s) => seq![("client_secret"@, s@)],
            None => Seq::<(Seq<char>, Seq<char>)>::empty(),
        });
    }
    form
}

/// The browser came back with the state the flow sent, or the flow stops.
pub fn check_callback_state(returned: &str, sent: &str) -> (r: Result<(), OAuthError>)
    ensures
        match r {
            Ok(()) => returned@ == sent@,
            Err(e) => returned@ != sent@ && e.message@ == "OAuth callback state mismatch"@,
        },
{
    if crate::text::str_eq(returned, sent) {
        Ok(())
    } else {
        Err(OAuthError { message: String::from_str("OAuth callback state mismatch") })
    }
}

} // verus!

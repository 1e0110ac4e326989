use vstd::prelude::*;
use crate::text::{chars_of, lit, str_eq};

verus! {

/// A JSON value as tool calls carry their arguments. Every node other than
/// `Null` keeps its compact JSON text, which is what rules over raw argument
/// text are matched against.
pub enum JsonValue {
    Null,
    /// A string: its value, then its JSON text (quoted and escaped).
    Str(String, String),
    /// A boolean or a number: its JSON text.
    Scalar(String),
    /// An array: its elements, then its JSON text.
    Array(Vec<JsonValue>, String),
    /// An object: its entries in order, then its JSON text.
    Object(Vec<(String, JsonValue)>, String),
}

/// The compact JSON text of `v`.
pub open spec fn json_text(v: JsonValue) -> Seq<char> {
    match v {
        JsonValue::Null => seq!['n', 'u', 'l', 'l'],
        JsonValue::Str(_, t) => t@,
        JsonValue::Scalar(t) => t@,
        JsonValue::Array(_, t) => t@,
        JsonValue::Object(_, t) => t@,
    }
}

/// The value of the first entry whose key is `k`.
pub open spec fn find_key(entries: Seq<(String, JsonValue)>, k: Seq<char>) -> Option<JsonValue>
    decreases entries.len(),
{
    if entries.len() == 0 {
        None
    } else if entries[0].0@ == k {
        Some(entries[0].1)
    } else {
        find_key(entries.drop_first(), k)
    }
}

/// `v.get(k)` for a key: the entry's value for an object, nothing otherwise.
pub open spec fn get_key(v: JsonValue, k: Seq<char>) -> Option<JsonValue> {
    match v {
        JsonValue::Object(entries, _) => find_key(entries@, k),
        _ => None,
    }
}

pub open spec fn is_digit(c: char) -> bool {
    '0' <= c && c <= '9'
}

/// The decimal value of `s` when it is a non-empty run of ASCII digits.
pub open spec fn decimal(s: Seq<char>) -> Option<nat>
    decreases s.len(),
{
    if s.len() == 0 || !is_digit(s.last()) {
        None
    } else if s.len() == 1 {
        Some((s.last() as nat - '0' as nat) as nat)
    } else {
        match decimal(s.drop_last()) {
            Some(n) => Some(n * 10 + (s.last() as nat - '0' as nat) as nat),
            None => None,
        }
    }
}

/// One step of a selector path: an object key, or an array index written in decimal.
pub open spec fn step(v: JsonValue, seg: Seq<char>) -> Option<JsonValue> {
    match v {
        JsonValue::Object(entries, _) => find_key(entries@, seg),
        JsonValue::Array(items, _) => match decimal(seg) {
            Some(n) => if n < items@.len() {
                Some(items@[n as int])
            } else {
                None
            },
            None => None,
        },
        _ => None,
    }
}

/// The value reached from `v` along `path`.
pub open spec fn lookup(v: JsonValue, path: Seq<Seq<char>>) -> Option<JsonValue>
    decreases path.len(),
{
    if path.len() == 0 {
        Some(v)
    } else {
        match step(v, path[0]) {
            Some(c) => lookup(c, path.drop_first()),
            None => None,
        }
    }
}

/// The text a selector pattern is matched against: a string's value, `null`,
/// or the JSON text of anything else.
pub open spec fn match_text(v: JsonValue) -> Seq<char> {
    match v {
        JsonValue::Str(s, _) => s@,
        _ => json_text(v),
    }
}

impl JsonValue {
    pub fn text(&self) -> (r: String)
        ensures
            r@ == json_text(*self),
    {
        match self {
            JsonValue::Null => {
                let r = String::from_str("null");
                proof {
                    reveal_strlit("null");
                }
                r
            },
            JsonValue::Str(_, t) => t.clone(),
            JsonValue::Scalar(t) => t.clone(),
            JsonValue::Array(_, t) => t.clone(),
            JsonValue::Object(_, t) => t.clone(),
        }
    }

    /// The value under key `k`, for an object.
    pub fn get(&self, k: &str) -> (r: Option<&JsonValue>)
        ensures
            match r {
                Some(x) => get_key(*self, k@) == Some(*x),
                None => get_key(*self, k@) is None,
            },
    {
        match self {
            JsonValue::Object(entries, _) => find_entry(entries, k),
            _ => None,
        }
    }

    /// The string value, when this is a string.
    pub fn as_str(&self) -> (r: Option<&String>)
        ensures
            match r {
                Some(s) => *self matches JsonValue::Str(x, _) && x == *s,
                None => !(*self is Str),
            },
    {
        match self {
            JsonValue::Str(s, _) => Some(s),
            _ => None,
        }
    }
}

fn find_entry<'a>(entries: &'a Vec<(String, JsonValue)>, k: &str) -> (r: Option<&'a JsonValue>)
    ensures
        match r {
            Some(x) => find_key(entries@, k@) == Some(*x),
            None => find_key(entries@, k@) is None,
        },
{
    let mut i: usize = 0;
    proof {
        assert(entries@.skip(0) == entries@);
    }
    while i < entries.len()
        invariant
            i <= entries.len(),
            find_key(entries@, k@) == find_key(entries@.skip(i as int), k@),
        decreases entries.len() - i,
    {
        proof {
            let t = entries@.skip(i as int);
            assert(t.drop_first() == entries@.skip(i + 1));
            assert(t[0] == entries@[i as int]);
        }
        if str_eq(entries[i].0.as_str(), k) {
            return Some(&entries[i].1);
        }
        i = i + 1;
    }
    proof {
        assert(entries@.skip(i as int).len() == 0);
    }
    None
}

proof fn lemma_decimal_digits(s: Seq<char>, k: int)
    requires
        decimal(s) is Some,
        0 <= k < s.len(),
    ensures
        is_digit(s[k]),
    decreases s.len(),
{
    if k < s.len() - 1 {
        assert(s.drop_last()[k] == s[k]);
        lemma_decimal_digits(s.drop_last(), k);
    }
}

proof fn lemma_decimal_prefix(s: Seq<char>, i: int)
    requires
        decimal(s) is Some,
        1 <= i <= s.len(),
    ensures
        decimal(s.take(i)) is Some,
        decimal(s.take(i))->0 <= decimal(s)->0,
    decreases s.len(),
{
    if i == s.len() {
        assert(s.take(i) == s);
    } else {
        lemma_decimal_prefix(s.drop_last(), i);
        assert(s.drop_last().take(i) == s.take(i));
    }
}

/// Parses a run of ASCII digits into an index below `bound`.
pub fn parse_index(s: &[char], bound: usize) -> (r: Option<usize>)
    ensures
        match r {
            Some(n) => decimal(s@) == Some(n as nat) && n < bound,
            None => match decimal(s@) {
                Some(n) => n >= bound,
                None => true,
            },
        },
{
    if s.len() == 0 || bound == 0 {
        return None;
    }
    let mut acc: u128 = 0;
    let mut i: usize = 0;
    while i < s.len()
        invariant
            i <= s.len(),
            s.len() > 0,
            acc < bound,
            i == 0 ==> acc == 0,
            i > 0 ==> decimal(s@.take(i as int)) == Some(acc as nat),
        decreases s.len() - i,
    {
        let c = s[i];
        proof {
            let t = s@.take(i as int + 1);
            assert(t.drop_last() == s@.take(i as int));
            assert(t.last() == c);
        }
        if !('0' <= c && c <= '9') {
            proof {
                if decimal(s@) is Some {
                    lemma_decimal_digits(s@, i as int);
                }
            }
            return None;
        }
        let d = (c as u32 - '0' as u32) as u128;
        let next = acc * 10 + d;
        proof {
            let t = s@.take(i as int + 1);
            if i == 0 {
                assert(t.len() == 1);
            }
            assert(decimal(t) == Some(next as nat));
        }
        if next >= bound as u128 {
            proof {
                if decimal(s@) is Some {
                    lemma_decimal_prefix(s@, i as int + 1);
                }
            }
            return None;
        }
        acc = next;
        i = i + 1;
    }
    proof {
        assert(s@.take(s.len() as int) == s@);
    }
    Some(acc as usize)
}

/// Parses a run of ASCII digits into a `u64`; `None` when it is not one or
/// does not fit.
pub fn parse_u64(s: &[char]) -> (r: Option<u64>)
    ensures
        match r {
            Some(n) => decimal(s@) == Some(n as nat),
            None => match decimal(s@) {
                Some(n) => n > u64::MAX,
                None => true,
            },
        },
{
    if s.len() == 0 {
        return None;
    }
    let mut acc: u128 = 0;
    let mut i: usize = 0;
    while i < s.len()
        invariant
            i <= s.len(),
            s.len() > 0,
            acc <= u64::MAX,
            i == 0 ==> acc == 0,
            i > 0 ==> decimal(s@.take(i as int)) == Some(acc as nat),
        decreases s.len() - i,
    {
        let c = s[i];
        proof {
            let t = s@.take(i as int + 1);
            assert(t.drop_last() == s@.take(i as int));
            assert(t.last() == c);
        }
        if !('0' <= c && c <= '9') {
            proof {
                if decimal(s@) is Some {
                    lemma_decimal_digits(s@, i as int);
                }
            }
            return None;
        }
        let d = (c as u32 - '0' as u32) as u128;
        let next = acc * 10 + d;
        proof {
            let t = s@.take(i as int + 1);
            if i == 0 {
                assert(t.len() == 1);
            }
            assert(decimal(t) == Some(next as nat));
        }
        if next > u64::MAX as u128 {
            proof {
                if decimal(s@) is Some {
                    lemma_decimal_prefix(s@, i as int + 1);
                }
            }
            return None;
        }
        acc = next;
        i = i + 1;
    }
    proof {
        assert(s@.take(s.len() as int) == s@);
    }
    Some(acc as u64)
}

/// `Value::as_u64`: the value of a number written as a non-negative
/// integer that fits in a `u64`.
pub open spec fn json_u64(v: JsonValue) -> Option<u64> {
    match v {
        JsonValue::Scalar(t) => match decimal(t@) {
            Some(n) => if n <= u64::MAX {
                Some(n as u64)
            } else {
                None
            },
            None => None,
        },
        _ => None,
    }
}

/// `Value::as_bool`.
pub open spec fn json_bool(v: JsonValue) -> Option<bool> {
    match v {
        JsonValue::Scalar(t) => if t@ == "true"@ {
            Some(true)
        } else if t@ == "false"@ {
            Some(false)
        } else {
            None
        },
        _ => None,
    }
}

impl JsonValue {
    /// The value of a boolean.
    pub fn as_bool(&self) -> (r: Option<bool>)
        ensures
            r == json_bool(*self),
    {
        match self {
            JsonValue::Scalar(t) => {
                proof {
                    reveal_strlit("true");
                    reveal_strlit("false");
                    assert("true"@.len() == 4 && "false"@.len() == 5);
                }
                if str_eq(t.as_str(), "true") {
                    Some(true)
                } else if str_eq(t.as_str(), "false") {
                    Some(false)
                } else {
                    None
                }
            },
            _ => None,
        }
    }
}

impl JsonValue {
    /// The value of a non-negative integer that fits in a `u64`.
    pub fn as_u64(&self) -> (r: Option<u64>)
        ensures
            r == json_u64(*self),
    {
        match self {
            JsonValue::Scalar(t) => {
                let v = chars_of(t.as_str());
                parse_u64(v.as_slice())
            },
            _ => None,
        }
    }
}

} // verus!

verus! {

/// The value reached from `v` along `path`, as a selector looks it up.
pub fn lookup_path<'a>(v: &'a JsonValue, path: &Vec<String>) -> (r: Option<&'a JsonValue>)
    ensures
        match r {
            Some(x) => lookup(*v, crate::text::views(path@)) == Some(*x),
            None => lookup(*v, crate::text::views(path@)) is None,
        },
{
    let mut cursor: &JsonValue = v;
    let mut i: usize = 0;
    proof {
        assert(crate::text::views(path@).skip(0) == crate::text::views(path@));
    }
    while i < path.len()
        invariant
            i <= path.len(),
            lookup(*v, crate::text::views(path@)) == lookup(
                *cursor,
                crate::text::views(path@).skip(i as int),
            ),
        decreases path.len() - i,
    {
        let ghost p = crate::text::views(path@).skip(i as int);
        proof {
            assert(p[0] == path@[i as int]@);
            assert(p.drop_first() == crate::text::views(path@).skip(i + 1));
        }
        let next = match cursor {
            JsonValue::Object(entries, _) => find_entry(entries, path[i].as_str()),
            JsonValue::Array(items, _) => {
                let seg = chars_of(path[i].as_str());
                match parse_index(seg.as_slice(), items.len()) {
                    Some(n) => Some(&items[n]),
                    None => None,
                }
            },
            _ => None,
        };
        match next {
            Some(c) => {
                cursor = c;
            },
            None => {
                return None;
            },
        }
        i = i + 1;
    }
    proof {
        assert(crate::text::views(path@).skip(i as int).len() == 0);
    }
    Some(cursor)
}

/// `match_text(v)`.
pub fn value_match_text(v: &JsonValue) -> (r: String)
    ensures
        r@ == match_text(*v),
{
    match v {
        JsonValue::Str(s, _) => s.clone(),
        _ => v.text(),
    }
}

#[verifier::external_type_specification]
#[verifier::external_body]
pub struct ExSerdeValue(serde_json::Value);

/// Converts a `serde_json::Value` node for node, keeping each node's
/// compact text from `to_string`; nothing is stated of it, and only
/// `parse_json` uses it.
#[verifier::external_body]
fn from_serde(v: &serde_json::Value) -> JsonValue {
    let text = v.to_string();
    match v {
        serde_json::Value::Null => JsonValue::Null,
        serde_json::Value::String(s) => JsonValue::Str(s.clone(), text),
        serde_json::Value::Bool(_) => JsonValue::Scalar(text),
        serde_json::Value::Number(_) => JsonValue::Scalar(text),
        serde_json::Value::Array(items) => JsonValue::Array(items.iter().map(from_serde).collect(), text),
        serde_json::Value::Object(map) => JsonValue::Object(
            map.iter().map(|(k, x)| (k.clone(), from_serde(x))).collect(),
            text,
        ),
    }
}

/// What `serde_json::from_str::<serde_json::Value>` makes of a text, as a
/// `JsonValue`, or the `Display` text of its error when the text is not JSON.
pub uninterp spec fn json_parse(text: Seq<char>) -> Result<JsonValue, Seq<char>>;

/// The value a text parses to, if it is JSON.
pub open spec fn json_parsed(text: Seq<char>) -> Option<JsonValue> {
    match json_parse(text) {
        Ok(v) => Some(v),
        Err(_) => None,
    }
}

/// Calls `serde_json::from_str::<serde_json::Value>` and converts the value,
/// or gives the error's `Display` text. JSON syntax is not restated: the
/// contract names the result only.
#[verifier::external_body]
pub(crate) fn parse_json(text: &str) -> (r: Result<JsonValue, String>)
    ensures
        match r {
            Ok(v) => json_parse(text@) == Ok::<JsonValue, Seq<char>>(v),
            Err(e) => json_parse(text@) == Err::<JsonValue, Seq<char>>(e@),
        },
{
    match serde_json::from_str::<serde_json::Value>(text) {
        Ok(v) => Ok(from_serde(&v)),
        Err(e) => Err(e.to_string()),
    }
}

/// The elements of an array value.
pub open spec fn json_array(v: JsonValue) -> Option<Seq<JsonValue>> {
    match v {
        JsonValue::Array(items, _) => Some(items@),
        _ => None,
    }
}

impl JsonValue {
    /// The elements, when this is an array.
    pub fn as_array(&self) -> (r: Option<&Vec<JsonValue>>)
        ensures
            match r {
                Some(items) => json_array(*self) == Some(items@),
                None => json_array(*self) is None,
            },
    {
        match self {
            JsonValue::Array(items, _) => Some(items),
            _ => None,
        }
    }

    /// Whether this is an object.
    pub fn is_object(&self) -> (r: bool)
        ensures
            r == (*self is Object),
    {
        match self {
            JsonValue::Object(_, _) => true,
            _ => false,
        }
    }
}

} // verus!

use vstd::prelude::*;

use crate::config::PermissionsConfig;
use crate::json::{get_key, json_text, lookup, lookup_path, match_text, value_match_text, JsonValue};
use crate::text::{
    chars_of, cviews, eq_ignore_ascii_case, eq_ignore_case, has_char, lower, lower_range, slice_vec,
    split_char, split_chars, string_from, string_from_range, to_lower, trim, trim_bounds, trim_str,
    views,
};
use crate::wildcard::{wild, wildcard_match};

verus! {

/// At most this many rules in each of the allow and deny lists.
pub const MAX_RULES_PER_LIST: usize = 500;

/// A rule may hold at most this many characters once trimmed.
pub const MAX_RULE_LENGTH: usize = 1024;

/// One `path:pattern` part of a structured argument matcher.
pub struct SelectorMatcher {
    pub path: Vec<String>,
    pub pattern: Vec<char>,
}

/// What a rule asks of the call's arguments.
pub enum RuleMatcher {
    /// `(*)`: any arguments.
    AnyArgs,
    /// A wildcard pattern over the canonical argument text.
    Raw(Vec<char>),
    /// Every selector must reach a value that its pattern matches.
    Selectors(Vec<SelectorMatcher>),
}

/// A parsed `tool(matcher)` rule.
pub struct CompiledRule {
    /// The rule as written (trimmed).
    pub raw: String,
    /// The lower-cased tool-name wildcard pattern.
    pub tool_pattern: Vec<char>,
    pub matcher: RuleMatcher,
}

/// Decides whether a tool call may run.
pub struct PermissionEngine {
    pub enabled: bool,
    pub allow_rules: Vec<CompiledRule>,
    pub deny_rules: Vec<CompiledRule>,
}

/// The outcome of a permission check.
pub struct PermissionDecision {
    pub allowed: bool,
    pub reason: String,
}

/// Why a rule list was refused.
#[derive(PartialEq, Eq, Structural)]
pub enum RuleErrorKind {
    TooManyRules,
    EmptyRule,
    RuleTooLong,
    MissingOpenParen,
    MissingCloseParen,
    MalformedParens,
    EmptyToolName,
    EmptyArgumentMatcher,
    EmptyPathSegment,
    InvalidPathCharacters,
}

/// A refused rule list: what went wrong, in which list, at which index, and
/// the offending text (the rule, or for path errors the selector path).
pub struct RuleError {
    pub kind: RuleErrorKind,
    pub deny_list: bool,
    pub index: usize,
    pub text: String,
}

// ---------------------------------------------------------------------------
// Specification
// ---------------------------------------------------------------------------

pub open spec fn shell_name() -> Seq<char> {
    seq!['s', 'h', 'e', 'l', 'l']
}

pub open spec fn command_key() -> Seq<char> {
    seq!['c', 'o', 'm', 'm', 'a', 'n', 'd']
}

/// The tool name as rules see it: trimmed and ASCII lower-cased.
pub open spec fn normalize(name: Seq<char>) -> Seq<char> {
    lower(trim(name))
}

/// The text a raw-argument rule is matched against: the `command` string for
/// the shell tool, the compact JSON of the arguments for any other tool.
pub open spec fn canonical_args(tool: Seq<char>, args: JsonValue) -> Seq<char> {
    if eq_ignore_case(tool, shell_name()) {
        match get_key(args, command_key()) {
            Some(JsonValue::Str(s, _)) => s@,
            _ => Seq::empty(),
        }
    } else {
        json_text(args)
    }
}

pub open spec fn selector_holds(sel: SelectorMatcher, args: JsonValue) -> bool {
    match lookup(args, views(sel.path@)) {
        Some(v) => wild(sel.pattern@, match_text(v)),
        None => false,
    }
}

pub open spec fn all_selectors_hold(sels: Seq<SelectorMatcher>, args: JsonValue) -> bool {
    forall|k: int| 0 <= k < sels.len() ==> selector_holds(#[trigger] sels[k], args)
}

pub open spec fn args_match(m: RuleMatcher, tool: Seq<char>, args: JsonValue) -> bool {
    match m {
        RuleMatcher::AnyArgs => true,
        RuleMatcher::Raw(p) => wild(p@, canonical_args(tool, args)),
        RuleMatcher::Selectors(sels) => all_selectors_hold(sels@, args),
    }
}

pub open spec fn rule_matches(rule: CompiledRule, tool: Seq<char>, args: JsonValue) -> bool {
    wild(rule.tool_pattern@, normalize(tool)) && args_match(rule.matcher, tool, args)
}

/// The index of the first rule that matches the call.
pub open spec fn first_match(rules: Seq<CompiledRule>, tool: Seq<char>, args: JsonValue) -> Option<
    int,
>
    decreases rules.len(),
{
    if rules.len() == 0 {
        None
    } else {
        match first_match(rules.drop_last(), tool, args) {
            Some(i) => Some(i),
            None => if rule_matches(rules.last(), tool, args) {
                Some(rules.len() - 1)
            } else {
                None
            },
        }
    }
}

pub open spec fn any_match(rules: Seq<CompiledRule>, tool: Seq<char>, args: JsonValue) -> bool {
    exists|k: int| 0 <= k < rules.len() && rule_matches(#[trigger] rules[k], tool, args)
}

pub open spec fn allowed_reason() -> Seq<char> {
    seq!['a', 'l', 'l', 'o', 'w', 'e', 'd']
}

/// Whether the engine lets the call run.
pub open spec fn permits(e: PermissionEngine, tool: Seq<char>, args: JsonValue) -> bool {
    !e.enabled || (first_match(e.deny_rules@, tool, args) is None && e.allow_rules@.len() > 0
        && any_match(e.allow_rules@, tool, args))
}

// ---------------------------------------------------------------------------
// Laws
// ---------------------------------------------------------------------------

proof fn lemma_first_match_some(rules: Seq<CompiledRule>, tool: Seq<char>, args: JsonValue)
    ensures
        first_match(rules, tool, args) is None <==> !any_match(rules, tool, args),
        first_match(rules, tool, args) matches Some(i) ==> 0 <= i < rules.len()
            && rule_matches(rules[i], tool, args) && forall|j: int|
            0 <= j < i ==> !rule_matches(#[trigger] rules[j], tool, args),
    decreases rules.len(),
{
    if rules.len() > 0 {
        let init = rules.drop_last();
        lemma_first_match_some(init, tool, args);
        assert forall|k: int| 0 <= k < init.len() implies init[k] == rules[k] by {}
        if any_match(rules, tool, args) && first_match(init, tool, args) is None {
            let k = choose|k: int| 0 <= k < rules.len() && rule_matches(#[trigger] rules[k], tool, args);
            if k < rules.len() - 1 {
                assert(rule_matches(init[k], tool, args));
            }
        }
        if any_match(init, tool, args) {
            let k = choose|k: int| 0 <= k < init.len() && rule_matches(#[trigger] init[k], tool, args);
            assert(rule_matches(rules[k], tool, args));
        }
    }
}

/// A call that any deny rule matches is refused, whatever the allow rules say.
pub proof fn law_deny_takes_precedence(
    e: PermissionEngine,
    tool: Seq<char>,
    args: JsonValue,
    k: int,
)
    requires
        e.enabled,
        0 <= k < e.deny_rules@.len(),
        rule_matches(e.deny_rules@[k], tool, args),
    ensures
        !permits(e, tool, args),
{
    lemma_first_match_some(e.deny_rules@, tool, args);
}

/// With enforcement on and no allow rules, every call is refused.
pub proof fn law_default_deny(e: PermissionEngine, tool: Seq<char>, args: JsonValue)
    requires
        e.enabled,
        e.allow_rules@.len() == 0,
    ensures
        !permits(e, tool, args),
{
}

/// With enforcement off, every call is allowed.
pub proof fn law_disabled_allows_all(e: PermissionEngine, tool: Seq<char>, args: JsonValue)
    requires
        !e.enabled,
    ensures
        permits(e, tool, args),
{
}

/// A call is allowed exactly when no deny rule and some allow rule matches it.
pub proof fn law_allowed_iff_allow_match_and_no_deny(
    e: PermissionEngine,
    tool: Seq<char>,
    args: JsonValue,
)
    requires
        e.enabled,
    ensures
        permits(e, tool, args) <==> (!any_match(e.deny_rules@, tool, args) && any_match(
            e.allow_rules@,
            tool,
            args,
        )),
{
    lemma_first_match_some(e.deny_rules@, tool, args);
}

/// The reason a decision carries.
pub open spec fn decision_reason(e: PermissionEngine, tool: Seq<char>, args: JsonValue) -> Seq<char> {
    if !e.enabled {
        "allowed"@
    } else if let Some(i) = first_match(e.deny_rules@, tool, args) {
        "Tool call blocked by deny rule `"@ + e.deny_rules@[i].raw@ + "`"@
    } else if e.allow_rules@.len() == 0 {
        "Tool call blocked: no allow rules configured (default deny)"@
    } else if any_match(e.allow_rules@, tool, args) {
        "allowed"@
    } else {
        "Tool call blocked: no allow rule matched"@
    }
}

// ---------------------------------------------------------------------------
// Evaluation
// ---------------------------------------------------------------------------

/// `canonical_args(tool, args)`.
pub fn canonical_args_text(tool: &str, args: &JsonValue) -> (r: String)
    ensures
        r@ == canonical_args(tool@, *args),
{
    proof {
        reveal_strlit("shell");
        reveal_strlit("command");
        assert("shell"@ =~= shell_name());
        assert("command"@ =~= command_key());
    }
    if eq_ignore_ascii_case(tool, "shell") {
        match args.get("command") {
            Some(v) => match v.as_str() {
                Some(s) => s.clone(),
                None => String::new(),
            },
            None => String::new(),
        }
    } else {
        args.text()
    }
}

fn selector_matches(sel: &SelectorMatcher, args: &JsonValue) -> (r: bool)
    ensures
        r == selector_holds(*sel, *args),
{
    match lookup_path(args, &sel.path) {
        Some(v) => {
            let text = chars_of(value_match_text(v).as_str());
            wildcard_match(sel.pattern.as_slice(), text.as_slice())
        },
        None => false,
    }
}

impl CompiledRule {
    /// Whether this rule covers the call; `normalized` is `normalize(tool)`.
    pub fn matches(&self, normalized: &[char], tool: &str, args: &JsonValue) -> (r: bool)
        requires
            normalized@ == normalize(tool@),
        ensures
            r == rule_matches(*self, tool@, *args),
    {
        if !wildcard_match(self.tool_pattern.as_slice(), normalized) {
            return false;
        }
        match &self.matcher {
            RuleMatcher::AnyArgs => true,
            RuleMatcher::Raw(p) => {
                let text = chars_of(canonical_args_text(tool, args).as_str());
                wildcard_match(p.as_slice(), text.as_slice())
            },
            RuleMatcher::Selectors(sels) => {
                let mut k: usize = 0;
                while k < sels.len()
                    invariant
                        k <= sels@.len(),
                        self.matcher == RuleMatcher::Selectors(*sels),
                        wild(self.tool_pattern@, normalize(tool@)),
                        forall|j: int| 0 <= j < k ==> selector_holds(#[trigger] sels@[j], *args),
                    decreases sels.len() - k,
                {
                    if !selector_matches(&sels[k], args) {
                        proof {
                            assert(!selector_holds(sels@[k as int], *args));
                            assert(!all_selectors_hold(sels@, *args));
                        }
                        return false;
                    }
                    k = k + 1;
                }
                true
            },
        }
    }
}

/// The index of the first of `rules` that covers the call.
fn find_first_match(rules: &Vec<CompiledRule>, normalized: &[char], tool: &str, args: &JsonValue) -> (r:
    Option<usize>)
    requires
        normalized@ == normalize(tool@),
    ensures
        match r {
            Some(i) => first_match(rules@, tool@, *args) == Some(i as int),
            None => first_match(rules@, tool@, *args) is None,
        },
{
    let mut i: usize = 0;
    while i < rules.len()
        invariant
            i <= rules.len(),
            normalized@ == normalize(tool@),
            first_match(rules@.take(i as int), tool@, *args) is None,
        decreases rules.len() - i,
    {
        proof {
            let t = rules@.take(i + 1);
            assert(t.drop_last() == rules@.take(i as int));
            assert(t.last() == rules@[i as int]);
        }
        if rules[i].matches(normalized, tool, args) {
            proof {
                lemma_first_match_prefix(rules@, i + 1, tool@, *args);
            }
            return Some(i);
        }
        i = i + 1;
    }
    proof {
        assert(rules@.take(rules.len() as int) == rules@);
    }
    None
}

proof fn lemma_first_match_prefix(rules: Seq<CompiledRule>, n: int, tool: Seq<char>, args: JsonValue)
    requires
        0 <= n <= rules.len(),
        first_match(rules.take(n), tool, args) is Some,
    ensures
        first_match(rules, tool, args) == first_match(rules.take(n), tool, args),
    decreases rules.len() - n,
{
    if n < rules.len() {
        let t = rules.take(n + 1);
        assert(t.drop_last() == rules.take(n));
        lemma_first_match_prefix(rules, n + 1, tool, args);
    } else {
        assert(rules.take(n) == rules);
    }
}

impl PermissionDecision {
    fn allow() -> (r: Self)
        ensures
            r.allowed,
            r.reason@ == "allowed"@,
    {
        PermissionDecision { allowed: true, reason: String::from_str("allowed") }
    }

    fn deny(reason: String) -> (r: Self)
        ensures
            !r.allowed,
            r.reason == reason,
    {
        PermissionDecision { allowed: false, reason }
    }
}

impl PermissionEngine {
    /// An engine that enforces nothing.
    pub fn disabled_allow_all() -> (r: Self)
        ensures
            !r.enabled,
            r.allow_rules@.len() == 0,
            r.deny_rules@.len() == 0,
    {
        PermissionEngine { enabled: false, allow_rules: Vec::new(), deny_rules: Vec::new() }
    }

    /// Decides a call of `tool_name` with `args`: deny rules first, then at
    /// least one allow rule must match.
    pub fn evaluate(&self, tool_name: &str, args: &JsonValue) -> (d: PermissionDecision)
        ensures
            d.allowed == permits(*self, tool_name@, *args),
            d.reason@ == decision_reason(*self, tool_name@, *args),
    {
        if !self.enabled {
            return PermissionDecision::allow();
        }
        let normalized = chars_of(to_lower(trim_str(tool_name).as_str()).as_str());
        let denied = find_first_match(&self.deny_rules, normalized.as_slice(), tool_name, args);
        proof {
            lemma_first_match_some(self.deny_rules@, tool_name@, *args);
        }
        match denied {
            Some(i) => {
                let mut reason = String::from_str("Tool call blocked by deny rule `");
                reason.append(self.deny_rules[i].raw.as_str());
                reason.append("`");
                return PermissionDecision::deny(reason);
            },
            None => {},
        }
        if self.allow_rules.len() == 0 {
            return PermissionDecision::deny(
                String::from_str("Tool call blocked: no allow rules configured (default deny)"),
            );
        }
        let found = find_first_match(&self.allow_rules, normalized.as_slice(), tool_name, args);
        proof {
            lemma_first_match_some(self.allow_rules@, tool_name@, *args);
        }
        match found {
            Some(_) => PermissionDecision::allow(),
            None => PermissionDecision::deny(
                String::from_str("Tool call blocked: no allow rule matched"),
            ),
        }
    }
}

// ---------------------------------------------------------------------------
// Rule syntax
// ---------------------------------------------------------------------------

/// The first index of `c` in `s`.
pub open spec fn first_index(s: Seq<char>, c: char) -> Option<int>
    decreases s.len(),
{
    if s.len() == 0 {
        None
    } else {
        match first_index(s.drop_last(), c) {
            Some(i) => Some(i),
            None => if s.last() == c {
                Some(s.len() - 1)
            } else {
                None
            },
        }
    }
}

/// The last index of `c` in `s`.
pub open spec fn last_index(s: Seq<char>, c: char) -> Option<int>
    decreases s.len(),
{
    if s.len() == 0 {
        None
    } else if s.last() == c {
        Some(s.len() - 1)
    } else {
        last_index(s.drop_last(), c)
    }
}

/// The pieces of `parts`, trimmed, without the empty ones.
pub open spec fn trimmed_nonempty(parts: Seq<Seq<char>>) -> Seq<Seq<char>>
    decreases parts.len(),
{
    if parts.len() == 0 {
        Seq::empty()
    } else {
        let init = trimmed_nonempty(parts.drop_last());
        let t = trim(parts.last());
        if t.len() == 0 {
            init
        } else {
            init.push(t)
        }
    }
}

/// Characters a selector path segment may hold.
pub open spec fn segment_char(c: char) -> bool {
    ('a' <= c && c <= 'z') || ('A' <= c && c <= 'Z') || ('0' <= c && c <= '9') || c == '_' || c
        == '-'
}

/// The segments of a dotted selector path, each trimmed; the first empty or
/// ill-formed segment is an error.
pub open spec fn parse_path(segs: Seq<Seq<char>>) -> Result<Seq<Seq<char>>, RuleErrorKind>
    decreases segs.len(),
{
    if segs.len() == 0 {
        Ok(Seq::empty())
    } else {
        match parse_path(segs.drop_last()) {
            Err(e) => Err(e),
            Ok(acc) => {
                let t = trim(segs.last());
                if t.len() == 0 {
                    Err(RuleErrorKind::EmptyPathSegment)
                } else if !(forall|i: int| 0 <= i < t.len() ==> segment_char(#[trigger] t[i])) {
                    Err(RuleErrorKind::InvalidPathCharacters)
                } else {
                    Ok(acc.push(t))
                }
            },
        }
    }
}

/// How a structured argument matcher reads.
pub enum SelectorsSpec {
    /// Not a selector list: the matcher is a raw pattern.
    NotSelectors,
    /// A selector path is ill-formed (the kind, then the path).
    Failed(RuleErrorKind, Seq<char>),
    /// The selectors: each a path and a pattern.
    Parsed(Seq<(Seq<Seq<char>>, Seq<char>)>),
}

/// One `path:pattern` part.
pub open spec fn parse_part(part: Seq<char>) -> SelectorsSpec {
    match first_index(part, ':') {
        None => SelectorsSpec::NotSelectors,
        Some(i) => {
            let path = trim(part.take(i));
            let pat = trim(part.skip(i + 1));
            if path.len() == 0 || pat.len() == 0 {
                SelectorsSpec::NotSelectors
            } else {
                match parse_path(split_char(path, '.')) {
                    Err(k) => SelectorsSpec::Failed(k, path),
                    Ok(segs) => SelectorsSpec::Parsed(seq![(segs, pat)]),
                }
            }
        },
    }
}

/// The parts in order; the first part that is not a selector decides.
pub open spec fn parse_parts(parts: Seq<Seq<char>>) -> SelectorsSpec
    decreases parts.len(),
{
    if parts.len() == 0 {
        SelectorsSpec::Parsed(Seq::empty())
    } else {
        match parse_parts(parts.drop_last()) {
            SelectorsSpec::Parsed(acc) => match parse_part(parts.last()) {
                SelectorsSpec::Parsed(one) => SelectorsSpec::Parsed(acc + one),
                other => other,
            },
            other => other,
        }
    }
}

/// A comma-separated list of `path:pattern` selectors, when every non-empty
/// part holds a `:`.
pub open spec fn parse_selectors(input: Seq<char>) -> SelectorsSpec {
    let parts = trimmed_nonempty(split_char(input, ','));
    if parts.len() == 0 || !(forall|k: int| 0 <= k < parts.len() ==> (#[trigger] parts[k]).contains(':')) {
        SelectorsSpec::NotSelectors
    } else {
        parse_parts(parts)
    }
}

/// The argument matcher as plain values.
pub enum MatcherSpec {
    Any,
    Raw(Seq<char>),
    Sel(Seq<(Seq<Seq<char>>, Seq<char>)>),
}

pub open spec fn selector_view(s: SelectorMatcher) -> (Seq<Seq<char>>, Seq<char>) {
    (views(s.path@), s.pattern@)
}

pub open spec fn matcher_view(m: RuleMatcher) -> MatcherSpec {
    match m {
        RuleMatcher::AnyArgs => MatcherSpec::Any,
        RuleMatcher::Raw(p) => MatcherSpec::Raw(p@),
        RuleMatcher::Selectors(v) => MatcherSpec::Sel(v@.map_values(|s: SelectorMatcher| selector_view(s))),
    }
}

/// A compiled rule as plain values: the rule text, the tool pattern, the matcher.
pub open spec fn rule_view(r: CompiledRule) -> (Seq<char>, Seq<char>, MatcherSpec) {
    (r.raw@, r.tool_pattern@, matcher_view(r.matcher))
}

/// What compiling the (trimmed) rule text `raw` yields.
pub open spec fn compile_rule_spec(raw: Seq<char>) -> Result<
    (Seq<char>, Seq<char>, MatcherSpec),
    (RuleErrorKind, Seq<char>),
> {
    match first_index(raw, '(') {
        None => Err((RuleErrorKind::MissingOpenParen, raw)),
        Some(open) => match last_index(raw, ')') {
            None => Err((RuleErrorKind::MissingCloseParen, raw)),
            Some(close) => if close <= open || close != raw.len() - 1 {
                Err((RuleErrorKind::MalformedParens, raw))
            } else {
                let tool = trim(raw.take(open));
                let arg = trim(raw.subrange(open + 1, close));
                if tool.len() == 0 {
                    Err((RuleErrorKind::EmptyToolName, raw))
                } else if arg.len() == 0 {
                    Err((RuleErrorKind::EmptyArgumentMatcher, raw))
                } else if arg == seq!['*'] {
                    Ok((raw, lower(tool), MatcherSpec::Any))
                } else {
                    match parse_selectors(arg) {
                        SelectorsSpec::Failed(k, path) => Err((k, path)),
                        SelectorsSpec::Parsed(sels) => Ok((raw, lower(tool), MatcherSpec::Sel(sels))),
                        SelectorsSpec::NotSelectors => Ok((raw, lower(tool), MatcherSpec::Raw(arg))),
                    }
                }
            },
        },
    }
}

/// What compiling a rule list yields: the compiled rules, or the first error
/// with its index.
pub open spec fn compile_rules_spec(rules: Seq<Seq<char>>) -> Result<
    Seq<(Seq<char>, Seq<char>, MatcherSpec)>,
    (RuleErrorKind, int, Seq<char>),
>
    decreases rules.len(),
{
    if rules.len() == 0 {
        Ok(Seq::empty())
    } else {
        match compile_rules_spec(rules.drop_last()) {
            Err(e) => Err(e),
            Ok(acc) => {
                let idx = rules.len() - 1;
                let t = trim(rules.last());
                if t.len() == 0 {
                    Err((RuleErrorKind::EmptyRule, idx, t))
                } else if t.len() > MAX_RULE_LENGTH {
                    Err((RuleErrorKind::RuleTooLong, idx, t))
                } else {
                    match compile_rule_spec(t) {
                        Err((k, text)) => Err((k, idx, text)),
                        Ok(r) => Ok(acc.push(r)),
                    }
                }
            },
        }
    }
}

proof fn lemma_first_index_prefix(s: Seq<char>, c: char, n: int)
    requires
        0 <= n <= s.len(),
        first_index(s.take(n), c) is Some,
    ensures
        first_index(s, c) == first_index(s.take(n), c),
    decreases s.len() - n,
{
    if n < s.len() {
        let t = s.take(n + 1);
        assert(t.drop_last() == s.take(n));
        lemma_first_index_prefix(s, c, n + 1);
    } else {
        assert(s.take(n) == s);
    }
}

proof fn lemma_first_index_none(s: Seq<char>, c: char)
    ensures
        first_index(s, c) is None <==> !s.contains(c),
        first_index(s, c) matches Some(i) ==> 0 <= i < s.len() && s[i] == c,
    decreases s.len(),
{
    if s.len() > 0 {
        lemma_first_index_none(s.drop_last(), c);
        if s.drop_last().contains(c) {
            let k = choose|k: int| 0 <= k < s.drop_last().len() && s.drop_last()[k] == c;
            assert(s[k] == c);
        }
        if s.contains(c) && !s.drop_last().contains(c) {
            let k = choose|k: int| 0 <= k < s.len() && s[k] == c;
            if k < s.len() - 1 {
                assert(s.drop_last()[k] == c);
            }
        }
    }
}

pub fn first_index_of(v: &[char], c: char) -> (r: Option<usize>)
    ensures
        match r {
            Some(i) => first_index(v@, c) == Some(i as int) && i < v@.len(),
            None => first_index(v@, c) is None,
        },
{
    let mut i: usize = 0;
    while i < v.len()
        invariant
            i <= v.len(),
            first_index(v@.take(i as int), c) is None,
        decreases v.len() - i,
    {
        proof {
            let t = v@.take(i + 1);
            assert(t.drop_last() == v@.take(i as int));
        }
        if v[i] == c {
            proof {
                lemma_first_index_prefix(v@, c, i + 1);
            }
            return Some(i);
        }
        i = i + 1;
    }
    proof {
        assert(v@.take(v.len() as int) == v@);
    }
    None
}

pub fn last_index_of(v: &[char], c: char) -> (r: Option<usize>)
    ensures
        match r {
            Some(i) => last_index(v@, c) == Some(i as int) && i < v@.len(),
            None => last_index(v@, c) is None,
        },
{
    let mut j: usize = v.len();
    proof {
        assert(v@.take(j as int) == v@);
    }
    while j > 0
        invariant
            j <= v.len(),
            last_index(v@, c) == last_index(v@.take(j as int), c),
        decreases j,
    {
        proof {
            let t = v@.take(j as int);
            assert(t.drop_last() == v@.take(j - 1));
            assert(t.last() == v@[j - 1]);
        }
        if v[j - 1] == c {
            return Some(j - 1);
        }
        j = j - 1;
    }
    None
}

fn trimmed_nonempty_of(parts: &Vec<Vec<char>>) -> (r: Vec<Vec<char>>)
    ensures
        cviews(r@) == trimmed_nonempty(cviews(parts@)),
{
    let mut out: Vec<Vec<char>> = Vec::new();
    let mut i: usize = 0;
    while i < parts.len()
        invariant
            i <= parts.len(),
            cviews(out@) == trimmed_nonempty(cviews(parts@).take(i as int)),
        decreases parts.len() - i,
    {
        let p = &parts[i];
        proof {
            let t = cviews(parts@).take(i + 1);
            assert(t.drop_last() == cviews(parts@).take(i as int));
            assert(t.last() == p@);
            assert(p@.subrange(0, p@.len() as int) == p@);
        }
        let (a, b) = trim_bounds(p.as_slice(), 0, p.len());
        if a < b {
            let mut piece: Vec<char> = Vec::new();
            let mut k = a;
            while k < b
                invariant
                    a <= k <= b,
                    b <= p@.len(),
                    piece@ == p@.subrange(a as int, k as int),
                decreases b - k,
            {
                piece.push(p[k]);
                proof {
                    assert(p@.subrange(a as int, k + 1) == p@.subrange(a as int, k as int).push(p@[k as int]));
                }
                k = k + 1;
            }
            let ghost old_out = cviews(out@);
            out.push(piece);
            proof {
                assert(cviews(out@) =~= old_out.push(piece@));
            }
        }
        i = i + 1;
    }
    proof {
        assert(cviews(parts@).take(parts.len() as int) == cviews(parts@));
    }
    out
}

fn all_segment_chars(v: &[char], a: usize, b: usize) -> (r: bool)
    requires
        a <= b <= v@.len(),
    ensures
        r == forall|i: int| 0 <= i < b - a ==> segment_char(#[trigger] v@.subrange(a as int, b as int)[i]),
{
    let mut k = a;
    while k < b
        invariant
            a <= k <= b,
            b <= v@.len(),
            forall|i: int| a <= i < k ==> segment_char(#[trigger] v@[i]),
        decreases b - k,
    {
        let c = v[k];
        if !(('a' <= c && c <= 'z') || ('A' <= c && c <= 'Z') || ('0' <= c && c <= '9') || c == '_'
            || c == '-') {
            proof {
                assert(v@.subrange(a as int, b as int)[k - a] == c);
            }
            return false;
        }
        k = k + 1;
    }
    proof {
        assert forall|i: int| 0 <= i < b - a implies segment_char(
            #[trigger] v@.subrange(a as int, b as int)[i],
        ) by {
            assert(v@.subrange(a as int, b as int)[i] == v@[a + i]);
        }
    }
    true
}

/// Splits a dotted selector path into its trimmed segments.
fn parse_selector_path(path: &[char]) -> (r: Result<Vec<String>, RuleErrorKind>)
    ensures
        match r {
            Ok(v) => parse_path(split_char(path@, '.')) == Ok::<Seq<Seq<char>>, RuleErrorKind>(
                views(v@),
            ),
            Err(k) => parse_path(split_char(path@, '.')) == Err::<Seq<Seq<char>>, RuleErrorKind>(
                k,
            ),
        },
{
    let segs = split_chars(path, '.');
    let mut out: Vec<String> = Vec::new();
    let mut i: usize = 0;
    proof {
        assert(cviews(segs@).take(0).len() == 0);
        assert(views(out@) =~= Seq::<Seq<char>>::empty());
    }
    while i < segs.len()
        invariant
            i <= segs.len(),
            cviews(segs@) == split_char(path@, '.'),
            parse_path(cviews(segs@).take(i as int)) == Ok::<Seq<Seq<char>>, RuleErrorKind>(
                views(out@),
            ),
        decreases segs.len() - i,
    {
        let seg = &segs[i];
        proof {
            let t = cviews(segs@).take(i + 1);
            assert(t.drop_last() == cviews(segs@).take(i as int));
            assert(t.last() == seg@);
            assert(seg@.subrange(0, seg@.len() as int) == seg@);
        }
        let (a, b) = trim_bounds(seg.as_slice(), 0, seg.len());
        if a == b {
            proof {
                lemma_parse_path_err(cviews(segs@), i + 1, RuleErrorKind::EmptyPathSegment);
            }
            return Err(RuleErrorKind::EmptyPathSegment);
        }
        if !all_segment_chars(seg.as_slice(), a, b) {
            proof {
                lemma_parse_path_err(cviews(segs@), i + 1, RuleErrorKind::InvalidPathCharacters);
            }
            return Err(RuleErrorKind::InvalidPathCharacters);
        }
        let ghost old_out = views(out@);
        out.push(string_from_range(seg.as_slice(), a, b));
        proof {
            assert(views(out@) =~= old_out.push(seg@.subrange(a as int, b as int)));
        }
        i = i + 1;
    }
    proof {
        assert(cviews(segs@).take(segs.len() as int) == cviews(segs@));
    }
    Ok(out)
}

proof fn lemma_parse_path_err(segs: Seq<Seq<char>>, n: int, k: RuleErrorKind)
    requires
        0 <= n <= segs.len(),
        parse_path(segs.take(n)) == Err::<Seq<Seq<char>>, RuleErrorKind>(k),
    ensures
        parse_path(segs) == Err::<Seq<Seq<char>>, RuleErrorKind>(k),
    decreases segs.len() - n,
{
    if n < segs.len() {
        let t = segs.take(n + 1);
        assert(t.drop_last() == segs.take(n));
        lemma_parse_path_err(segs, n + 1, k);
    } else {
        assert(segs.take(n) == segs);
    }
}

/// The reading of one selector part.
enum PartParse {
    NotSelectors,
    Failed(RuleErrorKind, Vec<char>),
    One(SelectorMatcher),
}

spec fn part_view(p: PartParse) -> SelectorsSpec {
    match p {
        PartParse::NotSelectors => SelectorsSpec::NotSelectors,
        PartParse::Failed(k, path) => SelectorsSpec::Failed(k, path@),
        PartParse::One(m) => SelectorsSpec::Parsed(seq![selector_view(m)]),
    }
}

fn parse_one_part(part: &[char]) -> (r: PartParse)
    ensures
        part_view(r) == parse_part(part@),
{
    let found = first_index_of(part, ':');
    if found.is_none() {
        return PartParse::NotSelectors;
    }
    let i = found.unwrap();
    assert(i < part.len());
    let (pa, pb) = trim_bounds(part, 0, i);
    let (qa, qb) = trim_bounds(part, i + 1, part.len());
    proof {
        assert(part@.subrange(0, i as int) == part@.take(i as int));
        assert(part@.subrange(i + 1, part@.len() as int) == part@.skip(i + 1));
    }
    if pa == pb || qa == qb {
        return PartParse::NotSelectors;
    }
    let path = slice_vec(part, pa, pb);
    let pattern = slice_vec(part, qa, qb);
    match parse_selector_path(path.as_slice()) {
        Err(k) => PartParse::Failed(k, path),
        Ok(segs) => PartParse::One(SelectorMatcher { path: segs, pattern }),
    }
}

/// The reading of an argument matcher as a selector list.
enum SelectorsParse {
    NotSelectors,
    Failed(RuleErrorKind, Vec<char>),
    Parsed(Vec<SelectorMatcher>),
}

spec fn selectors_view(p: SelectorsParse) -> SelectorsSpec {
    match p {
        SelectorsParse::NotSelectors => SelectorsSpec::NotSelectors,
        SelectorsParse::Failed(k, path) => SelectorsSpec::Failed(k, path@),
        SelectorsParse::Parsed(v) => SelectorsSpec::Parsed(
            v@.map_values(|s: SelectorMatcher| selector_view(s)),
        ),
    }
}

proof fn lemma_parse_parts_stops(parts: Seq<Seq<char>>, n: int)
    requires
        0 <= n <= parts.len(),
        !(parse_parts(parts.take(n)) is Parsed),
    ensures
        parse_parts(parts) == parse_parts(parts.take(n)),
    decreases parts.len() - n,
{
    if n < parts.len() {
        let t = parts.take(n + 1);
        assert(t.drop_last() == parts.take(n));
        lemma_parse_parts_stops(parts, n + 1);
    } else {
        assert(parts.take(n) == parts);
    }
}

fn parse_selector_list(input: &[char]) -> (r: SelectorsParse)
    ensures
        selectors_view(r) == parse_selectors(input@),
{
    let pieces = split_chars(input, ',');
    let parts = trimmed_nonempty_of(&pieces);
    let ghost ps = cviews(parts@);
    if parts.len() == 0 {
        return SelectorsParse::NotSelectors;
    }
    let mut k: usize = 0;
    while k < parts.len()
        invariant
            k <= parts.len(),
            ps == cviews(parts@),
            ps == trimmed_nonempty(split_char(input@, ',')),
            forall|j: int| 0 <= j < k ==> (#[trigger] ps[j]).contains(':'),
        decreases parts.len() - k,
    {
        if !has_char(parts[k].as_slice(), ':') {
            proof {
                assert(!ps[k as int].contains(':'));
            }
            return SelectorsParse::NotSelectors;
        }
        k = k + 1;
    }
    let mut acc: Vec<SelectorMatcher> = Vec::new();
    let mut i: usize = 0;
    proof {
        assert(ps.take(0).len() == 0);
        assert(acc@.map_values(|s: SelectorMatcher| selector_view(s)) =~= Seq::<
            (Seq<Seq<char>>, Seq<char>),
        >::empty());
    }
    while i < parts.len()
        invariant
            i <= parts.len(),
            ps == cviews(parts@),
            ps == trimmed_nonempty(split_char(input@, ',')),
            forall|j: int| 0 <= j < ps.len() ==> (#[trigger] ps[j]).contains(':'),
            ps.len() > 0,
            parse_parts(ps.take(i as int)) == SelectorsSpec::Parsed(
                acc@.map_values(|s: SelectorMatcher| selector_view(s)),
            ),
        decreases parts.len() - i,
    {
        proof {
            let t = ps.take(i + 1);
            assert(t.drop_last() == ps.take(i as int));
            assert(t.last() == parts@[i as int]@);
        }
        match parse_one_part(parts[i].as_slice()) {
            PartParse::NotSelectors => {
                proof {
                    lemma_parse_parts_stops(ps, i + 1);
                }
                return SelectorsParse::NotSelectors;
            },
            PartParse::Failed(k, path) => {
                proof {
                    lemma_parse_parts_stops(ps, i + 1);
                }
                return SelectorsParse::Failed(k, path);
            },
            PartParse::One(m) => {
                let ghost before = acc@.map_values(|s: SelectorMatcher| selector_view(s));
                let ghost mv = selector_view(m);
                acc.push(m);
                proof {
                    assert(acc@.map_values(|s: SelectorMatcher| selector_view(s)) =~= before
                        + seq![mv]);
                }
            },
        }
        i = i + 1;
    }
    proof {
        assert(ps.take(parts.len() as int) == ps);
    }
    SelectorsParse::Parsed(acc)
}

/// Parses one trimmed rule `tool(matcher)`.
fn compile_rule(raw: &[char]) -> (r: Result<CompiledRule, (RuleErrorKind, Vec<char>)>)
    ensures
        match r {
            Ok(rule) => compile_rule_spec(raw@) == Ok::<_, (RuleErrorKind, Seq<char>)>(rule_view(rule)),
            Err((k, t)) => compile_rule_spec(raw@) == Err::<(Seq<char>, Seq<char>, MatcherSpec), _>(
                (k, t@),
            ),
        },
{
    proof {
        assert(raw@.subrange(0, raw@.len() as int) == raw@);
    }
    let open = match first_index_of(raw, '(') {
        None => {
            return Err((RuleErrorKind::MissingOpenParen, slice_vec(raw, 0, raw.len())));
        },
        Some(i) => i,
    };
    let close = match last_index_of(raw, ')') {
        None => {
            return Err((RuleErrorKind::MissingCloseParen, slice_vec(raw, 0, raw.len())));
        },
        Some(i) => i,
    };
    proof {
        assert(raw@.subrange(0, raw@.len() as int) == raw@);
    }
    if close <= open || close != raw.len() - 1 {
        return Err((RuleErrorKind::MalformedParens, slice_vec(raw, 0, raw.len())));
    }
    let (ta, tb) = trim_bounds(raw, 0, open);
    let (aa, ab) = trim_bounds(raw, open + 1, close);
    proof {
        assert(raw@.subrange(0, open as int) == raw@.take(open as int));
    }
    if ta == tb {
        return Err((RuleErrorKind::EmptyToolName, slice_vec(raw, 0, raw.len())));
    }
    if aa == ab {
        return Err((RuleErrorKind::EmptyArgumentMatcher, slice_vec(raw, 0, raw.len())));
    }
    let tool_pattern = lower_range(raw, ta, tb);
    let rule_text = string_from(raw);
    let arg = slice_vec(raw, aa, ab);
    if ab - aa == 1 && raw[aa] == '*' {
        proof {
            assert(arg@ =~= seq!['*']);
        }
        return Ok(CompiledRule { raw: rule_text, tool_pattern, matcher: RuleMatcher::AnyArgs });
    }
    proof {
        if arg@ == seq!['*'] {
            assert(arg@[0] == raw@[aa as int]);
        }
    }
    match parse_selector_list(arg.as_slice()) {
        SelectorsParse::Failed(k, path) => Err((k, path)),
        SelectorsParse::Parsed(sels) => Ok(
            CompiledRule { raw: rule_text, tool_pattern, matcher: RuleMatcher::Selectors(sels) },
        ),
        SelectorsParse::NotSelectors => Ok(
            CompiledRule { raw: rule_text, tool_pattern, matcher: RuleMatcher::Raw(arg) },
        ),
    }
}

proof fn lemma_compile_rules_err(rules: Seq<Seq<char>>, n: int)
    requires
        0 <= n <= rules.len(),
        compile_rules_spec(rules.take(n)) is Err,
    ensures
        compile_rules_spec(rules) == compile_rules_spec(rules.take(n)),
    decreases rules.len() - n,
{
    if n < rules.len() {
        let t = rules.take(n + 1);
        assert(t.drop_last() == rules.take(n));
        lemma_compile_rules_err(rules, n + 1);
    } else {
        assert(rules.take(n) == rules);
    }
}

pub open spec fn rule_views(v: Seq<CompiledRule>) -> Seq<(Seq<char>, Seq<char>, MatcherSpec)> {
    v.map_values(|r: CompiledRule| rule_view(r))
}

/// Compiles a rule list; `deny_list` says which list it is, for errors.
pub fn compile_rules(rules: &Vec<String>, deny_list: bool) -> (r: Result<Vec<CompiledRule>, RuleError>)
    ensures
        match r {
            Ok(v) => compile_rules_spec(views(rules@)) == Ok::<_, (RuleErrorKind, int, Seq<char>)>(
                rule_views(v@),
            ),
            Err(e) => e.deny_list == deny_list && compile_rules_spec(views(rules@)) == Err::<
                Seq<(Seq<char>, Seq<char>, MatcherSpec)>,
                _,
            >((e.kind, e.index as int, e.text@)),
        },
{
    let mut out: Vec<CompiledRule> = Vec::new();
    let mut i: usize = 0;
    proof {
        assert(views(rules@).take(0).len() == 0);
        assert(rule_views(out@) =~= Seq::<(Seq<char>, Seq<char>, MatcherSpec)>::empty());
    }
    while i < rules.len()
        invariant
            i <= rules.len(),
            compile_rules_spec(views(rules@).take(i as int)) == Ok::<
                _,
                (RuleErrorKind, int, Seq<char>),
            >(rule_views(out@)),
        decreases rules.len() - i,
    {
        proof {
            let t = views(rules@).take(i + 1);
            assert(t.drop_last() == views(rules@).take(i as int));
            assert(t.last() == rules@[i as int]@);
        }
        let v = chars_of(rules[i].as_str());
        proof {
            assert(v@.subrange(0, v@.len() as int) == v@);
        }
        let (a, b) = trim_bounds(v.as_slice(), 0, v.len());
        if a == b {
            proof {
                assert(v@.subrange(a as int, b as int) =~= Seq::<char>::empty());
                lemma_compile_rules_err(views(rules@), i + 1);
            }
            return Err(RuleError { kind: RuleErrorKind::EmptyRule, deny_list, index: i, text: String::new() });
        }
        if b - a > MAX_RULE_LENGTH {
            proof {
                lemma_compile_rules_err(views(rules@), i + 1);
            }
            return Err(
                RuleError {
                    kind: RuleErrorKind::RuleTooLong,
                    deny_list,
                    index: i,
                    text: string_from_range(v.as_slice(), a, b),
                },
            );
        }
        let t = slice_vec(v.as_slice(), a, b);
        match compile_rule(t.as_slice()) {
            Err((k, text)) => {
                proof {
                    lemma_compile_rules_err(views(rules@), i + 1);
                }
                return Err(RuleError { kind: k, deny_list, index: i, text: string_from(text.as_slice()) });
            },
            Ok(rule) => {
                let ghost before = rule_views(out@);
                let ghost rv = rule_view(rule);
                out.push(rule);
                proof {
                    assert(rule_views(out@) =~= before.push(rv));
                }
            },
        }
        i = i + 1;
    }
    proof {
        assert(views(rules@).take(rules.len() as int) == views(rules@));
    }
    Ok(out)
}

/// What building an engine from a configuration yields.
pub open spec fn from_config_spec(c: PermissionsConfig) -> Result<
    (Seq<(Seq<char>, Seq<char>, MatcherSpec)>, Seq<(Seq<char>, Seq<char>, MatcherSpec)>),
    (RuleErrorKind, bool, int, Seq<char>),
> {
    if c.tools.allow@.len() > MAX_RULES_PER_LIST {
        Err((RuleErrorKind::TooManyRules, false, c.tools.allow@.len() as int, Seq::empty()))
    } else if c.tools.deny@.len() > MAX_RULES_PER_LIST {
        Err((RuleErrorKind::TooManyRules, true, c.tools.deny@.len() as int, Seq::empty()))
    } else {
        match compile_rules_spec(views(c.tools.allow@)) {
            Err((k, i, t)) => Err((k, false, i, t)),
            Ok(allow) => match compile_rules_spec(views(c.tools.deny@)) {
                Err((k, i, t)) => Err((k, true, i, t)),
                Ok(deny) => Ok((allow, deny)),
            },
        }
    }
}

impl PermissionEngine {
    /// Builds an engine from configuration, refusing oversized lists and
    /// rules that do not parse.
    pub fn from_config(config: &PermissionsConfig) -> (r: Result<Self, RuleError>)
        ensures
            match r {
                Ok(e) => e.enabled == config.enabled && from_config_spec(*config) == Ok::<
                    _,
                    (RuleErrorKind, bool, int, Seq<char>),
                >((rule_views(e.allow_rules@), rule_views(e.deny_rules@))),
                Err(err) => from_config_spec(*config) == Err::<
                    (
                        Seq<(Seq<char>, Seq<char>, MatcherSpec)>,
                        Seq<(Seq<char>, Seq<char>, MatcherSpec)>,
                    ),
                    _,
                >((err.kind, err.deny_list, err.index as int, err.text@)),
            },
    {
        if config.tools.allow.len() > MAX_RULES_PER_LIST {
            return Err(
                RuleError {
                    kind: RuleErrorKind::TooManyRules,
                    deny_list: false,
                    index: config.tools.allow.len(),
                    text: String::new(),
                },
            );
        }
        if config.tools.deny.len() > MAX_RULES_PER_LIST {
            return Err(
                RuleError {
                    kind: RuleErrorKind::TooManyRules,
                    deny_list: true,
                    index: config.tools.deny.len(),
                    text: String::new(),
                },
            );
        }
        let allow_rules = match compile_rules(&config.tools.allow, false) {
            Ok(v) => v,
            Err(e) => {
                return Err(e);
            },
        };
        let deny_rules = match compile_rules(&config.tools.deny, true) {
            Ok(v) => v,
            Err(e) => {
                return Err(e);
            },
        };
        Ok(PermissionEngine { enabled: config.enabled, allow_rules, deny_rules })
    }
}


/// The message of a refused rule list.
pub open spec fn rule_error_text(kind: RuleErrorKind, deny_list: bool, index: int, text: Seq<char>) -> Seq<
    char,
> {
    let label = if deny_list {
        "deny"@
    } else {
        "allow"@
    };
    match kind {
        RuleErrorKind::TooManyRules => label + " rules exceed maximum ("@ + crate::text::decimal_text(
            index as nat,
        ) + " > "@ + crate::text::decimal_text(MAX_RULES_PER_LIST as nat) + ")"@,
        RuleErrorKind::EmptyRule => label + " rule at index "@ + crate::text::decimal_text(index as nat)
            + " cannot be empty"@,
        RuleErrorKind::RuleTooLong => label + " rule at index "@ + crate::text::decimal_text(index as nat)
            + " exceeds max length of "@ + crate::text::decimal_text(MAX_RULE_LENGTH as nat),
        RuleErrorKind::MissingOpenParen => "invalid rule '"@ + text + "': missing '('"@,
        RuleErrorKind::MissingCloseParen => "invalid rule '"@ + text + "': missing ')'"@,
        RuleErrorKind::MalformedParens => "invalid rule '"@ + text + "': malformed '(...)' section"@,
        RuleErrorKind::EmptyToolName => "invalid rule '"@ + text + "': tool name is empty"@,
        RuleErrorKind::EmptyArgumentMatcher => "invalid rule '"@ + text + "': argument matcher is empty"@,
        RuleErrorKind::EmptyPathSegment => "selector path '"@ + text + "' contains an empty segment"@,
        RuleErrorKind::InvalidPathCharacters => "selector path '"@ + text + "' contains invalid characters"@,
    }
}

impl RuleError {
    /// The error's message.
    pub fn message(&self) -> (r: String)
        ensures
            r@ == rule_error_text(self.kind, self.deny_list, self.index as int, self.text@),
    {
        let label = if self.deny_list {
            "deny"
        } else {
            "allow"
        };
        let mut m = String::new();
        match self.kind {
            RuleErrorKind::TooManyRules => {
                m.append(label);
                m.append(" rules exceed maximum (");
                crate::text::push_decimal(&mut m, self.index as u64);
                m.append(" > ");
                crate::text::push_decimal(&mut m, MAX_RULES_PER_LIST as u64);
                m.append(")");
            },
            RuleErrorKind::EmptyRule => {
                m.append(label);
                m.append(" rule at index ");
                crate::text::push_decimal(&mut m, self.index as u64);
                m.append(" cannot be empty");
            },
            RuleErrorKind::RuleTooLong => {
                m.append(label);
                m.append(" rule at index ");
                crate::text::push_decimal(&mut m, self.index as u64);
                m.append(" exceeds max length of ");
                crate::text::push_decimal(&mut m, MAX_RULE_LENGTH as u64);
            },
            RuleErrorKind::MissingOpenParen => {
                m.append("invalid rule '");
                m.append(self.text.as_str());
                m.append("': missing '('");
            },
            RuleErrorKind::MissingCloseParen => {
                m.append("invalid rule '");
                m.append(self.text.as_str());
                m.append("': missing ')'");
            },
            RuleErrorKind::MalformedParens => {
                m.append("invalid rule '");
                m.append(self.text.as_str());
                m.append("': malformed '(...)' section");
            },
            RuleErrorKind::EmptyToolName => {
                m.append("invalid rule '");
                m.append(self.text.as_str());
                m.append("': tool name is empty");
            },
            RuleErrorKind::EmptyArgumentMatcher => {
                m.append("invalid rule '");
                m.append(self.text.as_str());
                m.append("': argument matcher is empty");
            },
            RuleErrorKind::EmptyPathSegment => {
                m.append("selector path '");
                m.append(self.text.as_str());
                m.append("' contains an empty segment");
            },
            RuleErrorKind::InvalidPathCharacters => {
                m.append("selector path '");
                m.append(self.text.as_str());
                m.append("' contains invalid characters");
            },
        }
        m
    }
}

} // verus!

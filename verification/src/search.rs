use vstd::prelude::*;

use crate::json::{get_key, json_bool, json_u64, JsonValue};
use crate::text::{chars_of, cviews, decimal_text, join, lines, lines_of, trim, views};
use crate::tools::{FilesystemGlobTool, FilesystemSearchTool, ToolResult};

verus! {

/// The most matches or files a search reports.
pub const MAX_RESULTS: usize = 1000;

#[verifier::external_type_specification]
#[verifier::external_body]
pub struct ExRegex(regex::Regex);

#[verifier::external_type_specification]
#[verifier::external_body]
pub struct ExPattern(glob::Pattern);

/// The message `regex::RegexBuilder::build` gives for a pattern, `None`
/// when it compiles.
pub uninterp spec fn regex_build_error(pattern: Seq<char>, case_insensitive: bool) -> Option<Seq<char>>;

/// Whether `regex::Regex::is_match`, on the regex that `RegexBuilder` builds
/// from the pattern (case-insensitive as given), finds a match in `text`.
pub uninterp spec fn regex_is_match(pattern: Seq<char>, case_insensitive: bool, text: Seq<char>) -> bool;

/// What `regex::Regex::replace_all` makes of `text` with replacement `rep`.
pub uninterp spec fn regex_replaced(pattern: Seq<char>, case_insensitive: bool, text: Seq<char>, rep: Seq<char>) -> Seq<char>;

/// The message `glob::Pattern::new` gives for a pattern, `None` when it
/// parses.
pub uninterp spec fn glob_error(pattern: Seq<char>) -> Option<Seq<char>>;

/// Whether `glob::Pattern::matches_path`, on the pattern that
/// `glob::Pattern::new` parses from the pattern text, accepts `path`.
pub uninterp spec fn glob_matches_path(pattern: Seq<char>, path: Seq<char>) -> bool;

/// Whether `std::path::Path`'s order (component by component) puts the
/// path `a` before the path `b`.
pub uninterp spec fn path_precedes(a: Seq<char>, b: Seq<char>) -> bool;

/// Calls `<` on `std::path::Path::new(a)` and `std::path::Path::new(b)`.
/// The contract names the answer only.
#[verifier::external_body]
fn path_less(a: &str, b: &str) -> (r: bool)
    ensures
        r == path_precedes(a@, b@),
{
    std::path::Path::new(a) < std::path::Path::new(b)
}

/// A compiled search pattern and the text it was compiled from.
pub struct SearchRegex {
    regex: regex::Regex,
    pattern: String,
    case_insensitive: bool,
}

/// A compiled path filter and its text.
pub struct FilterPattern {
    glob: glob::Pattern,
    pattern: String,
}

impl SearchRegex {
    pub closed spec fn source(&self) -> (Seq<char>, bool) {
        (self.pattern@, self.case_insensitive)
    }
}

impl FilterPattern {
    pub closed spec fn source(&self) -> Seq<char> {
        self.pattern@
    }
}

/// Calls `regex::RegexBuilder::new(pattern).case_insensitive(..).build()`;
/// the error is its `Display` text. The contract names the outcome only.
#[verifier::external_body]
fn build_regex(pattern: &str, case_insensitive: bool) -> (r: Result<regex::Regex, String>)
    ensures
        match r {
            Ok(_) => regex_build_error(pattern@, case_insensitive) is None,
            Err(e) => regex_build_error(pattern@, case_insensitive) == Some(e@),
        },
{
    regex::RegexBuilder::new(pattern).case_insensitive(case_insensitive).build().map_err(
        |e| e.to_string(),
    )
}

/// Calls `regex::Regex::is_match` on the compiled pattern of `re`, which
/// only `SearchRegex::new` builds from its source. The contract names the
/// answer only.
#[verifier::external_body]
fn regex_match(re: &SearchRegex, text: &str) -> (r: bool)
    ensures
        r == regex_is_match(re.source().0, re.source().1, text@),
{
    re.regex.is_match(text)
}

/// Calls `regex::Regex::replace_all` on the compiled pattern of `re` and
/// takes the text out of the `Cow`. The contract names the result only.
#[verifier::external_body]
fn regex_replace_all(re: &SearchRegex, text: &str, rep: &str) -> (r: String)
    ensures
        r@ == regex_replaced(re.source().0, re.source().1, text@, rep@),
{
    re.regex.replace_all(text, rep).into_owned()
}

/// Calls `glob::Pattern::new`; the error is its `Display` text. The
/// contract names the outcome only.
#[verifier::external_body]
fn build_glob(pattern: &str) -> (r: Result<glob::Pattern, String>)
    ensures
        match r {
            Ok(_) => glob_error(pattern@) is None,
            Err(e) => glob_error(pattern@) == Some(e@),
        },
{
    glob::Pattern::new(pattern).map_err(|e| e.to_string())
}

/// Calls `glob::Pattern::matches_path` on `std::path::Path::new(path)`
/// with the pattern of `p`, which only `FilterPattern::new` parses from its
/// source. The contract names the answer only.
#[verifier::external_body]
fn glob_match(p: &FilterPattern, path: &str) -> (r: bool)
    ensures
        r == glob_matches_path(p.source(), path@),
{
    p.glob.matches_path(std::path::Path::new(path))
}

impl SearchRegex {
    /// Compiles a search pattern.
    pub fn new(pattern: &str, case_insensitive: bool) -> (r: Result<Self, String>)
        ensures
            match r {
                Ok(s) => regex_build_error(pattern@, case_insensitive) is None && s.source() == (
                    pattern@,
                    case_insensitive,
                ),
                Err(e) => regex_build_error(pattern@, case_insensitive) == Some(e@),
            },
    {
        match build_regex(pattern, case_insensitive) {
            Ok(regex) => Ok(SearchRegex { regex, pattern: String::from_str(pattern), case_insensitive }),
            Err(e) => Err(e),
        }
    }

    pub fn is_match(&self, text: &str) -> (r: bool)
        ensures
            r == regex_is_match(self.source().0, self.source().1, text@),
    {
        regex_match(self, text)
    }

    /// Every match in `text` replaced by `rep` (where `$n` names a group).
    pub fn replace_all(&self, text: &str, rep: &str) -> (r: String)
        ensures
            r@ == regex_replaced(self.source().0, self.source().1, text@, rep@),
    {
        regex_replace_all(self, text, rep)
    }
}

impl FilterPattern {
    /// Parses an path filter.
    pub fn new(pattern: &str) -> (r: Result<Self, String>)
        ensures
            match r {
                Ok(p) => glob_error(pattern@) is None && p.source() == pattern@,
                Err(e) => glob_error(pattern@) == Some(e@),
            },
    {
        match build_glob(pattern) {
            Ok(glob) => Ok(FilterPattern { glob, pattern: String::from_str(pattern) }),
            Err(e) => Err(e),
        }
    }

    pub fn matches_path(&self, path: &str) -> (r: bool)
        ensures
            r == glob_matches_path(self.source(), path@),
    {
        glob_match(self, path)
    }
}

// ── Requests ────────────────────────────────────────────────────────────────

/// What a search asks for.
pub struct SearchRequest {
    pub pattern: String,
    pub path: String,
    pub filter: Option<String>,
    pub case_sensitive: bool,
    pub max_results: usize,
}

pub open spec fn str_arg(args: JsonValue, key: Seq<char>) -> Option<Seq<char>> {
    match get_key(args, key) {
        Some(JsonValue::Str(s, _)) => Some(s@),
        _ => None,
    }
}

/// `max_results`: the number asked for, 1000 by default and at most.
pub open spec fn max_results_of(args: JsonValue) -> usize {
    match get_key(args, "max_results"@) {
        Some(v) => match json_u64(v) {
            Some(n) => if n < MAX_RESULTS {
                n as usize
            } else {
                MAX_RESULTS
            },
            None => MAX_RESULTS,
        },
        None => MAX_RESULTS,
    }
}

fn max_results_arg(args: &JsonValue) -> (r: usize)
    ensures
        r == max_results_of(*args),
{
    match args.get("max_results") {
        Some(v) => match v.as_u64() {
            Some(n) => if n < MAX_RESULTS as u64 {
                n as usize
            } else {
                MAX_RESULTS
            },
            None => MAX_RESULTS,
        },
        None => MAX_RESULTS,
    }
}

fn str_arg_of(args: &JsonValue, key: &str) -> (r: Option<String>)
    ensures
        crate::env::opt_view(r) == str_arg(*args, key@),
{
    match args.get(key) {
        Some(v) => match v.as_str() {
            Some(s) => Some(s.clone()),
            None => None,
        },
        None => None,
    }
}

/// A tool result that failed with `message`.
pub open spec fn failure(r: ToolResult, message: Seq<char>) -> bool {
    !r.success && r.output@.len() == 0 && (r.error matches Some(e) && e@ == message)
}

fn fail(message: String) -> (r: ToolResult)
    ensures
        failure(r, message@),
{
    ToolResult { success: false, output: String::new(), error: Some(message) }
}

// ── Path order ──────────────────────────────────────────────────────────────

/// Where `x` goes in `sorted`: after every file whose path does not come
/// after its own.
pub open spec fn path_insert_pos(sorted: Seq<SearchFile>, x: SearchFile) -> int
    decreases sorted.len(),
{
    if sorted.len() == 0 {
        0
    } else if path_precedes(x.path@, sorted[0].path@) {
        0
    } else {
        1 + path_insert_pos(sorted.drop_first(), x)
    }
}

/// The files sorted by path in `Path` order, stably (as `sort` on the
/// paths does).
pub open spec fn sort_by_path(s: Seq<SearchFile>) -> Seq<SearchFile>
    decreases s.len(),
{
    if s.len() == 0 {
        s
    } else {
        let t = sort_by_path(s.drop_last());
        t.insert(path_insert_pos(t, s.last()), s.last())
    }
}

proof fn lemma_path_insert_range(sorted: Seq<SearchFile>, x: SearchFile)
    ensures
        0 <= path_insert_pos(sorted, x) <= sorted.len(),
    decreases sorted.len(),
{
    if sorted.len() > 0 && !path_precedes(x.path@, sorted[0].path@) {
        lemma_path_insert_range(sorted.drop_first(), x);
    }
}

proof fn lemma_path_insert_scan(sorted: Seq<SearchFile>, x: SearchFile, p: int)
    requires
        0 <= p <= sorted.len(),
        forall|q: int| 0 <= q < p ==> !path_precedes(x.path@, #[trigger] sorted[q].path@),
        p == sorted.len() || path_precedes(x.path@, sorted[p].path@),
    ensures
        path_insert_pos(sorted, x) == p,
    decreases p,
{
    if p > 0 {
        let t = sorted.drop_first();
        assert forall|q: int| 0 <= q < p - 1 implies !path_precedes(x.path@, #[trigger] t[q].path@) by {
            assert(t[q] == sorted[q + 1]);
        }
        if p < sorted.len() {
            assert(t[p - 1] == sorted[p]);
        }
        lemma_path_insert_scan(t, x, p - 1);
        assert(!path_precedes(x.path@, sorted[0].path@));
    }
}

/// The files in path order.
pub fn sort_files_by_path(files: Vec<SearchFile>) -> (r: Vec<SearchFile>)
    ensures
        r@ == sort_by_path(files@),
{
    let ghost all = files@;
    let n = files.len();
    assert(all.len() == n);
    let mut rest = files;
    let mut out: Vec<SearchFile> = Vec::new();
    let mut i: usize = 0;
    while rest.len() > 0
        invariant
            i <= all.len(),
            all.len() <= usize::MAX,
            rest@ == all.skip(i as int),
            out@ == sort_by_path(all.take(i as int)),
        decreases rest.len(),
    {
        assert(rest@.len() == all.len() - i);
        let x = rest.remove(0);
        let ghost t = out@;
        let mut p: usize = 0;
        while p < out.len() && !path_less(x.path.as_str(), out[p].path.as_str())
            invariant
                p <= out@.len(),
                t == out@,
                forall|q: int| 0 <= q < p ==> !path_precedes(x.path@, #[trigger] t[q].path@),
            decreases out.len() - p,
        {
            p = p + 1;
        }
        proof {
            lemma_path_insert_scan(t, x, p as int);
            let s = all.take(i + 1);
            assert(s.drop_last() == all.take(i as int));
            assert(all.skip(i as int)[0] == all[i as int]);
            assert(s.last() == all[i as int]);
            assert(rest@ == all.skip(i + 1));
        }
        out.insert(p, x);
        i = i + 1;
    }
    proof {
        assert(all.take(all.len() as int) == all);
    }
    out
}

impl FilesystemSearchTool {
    /// Searches the files in path order (whatever order they come in):
    /// the report of `search_files` on the files sorted by path.
    pub fn search_sorted(
        &self,
        regex: &SearchRegex,
        filter: Option<&FilterPattern>,
        files: Vec<SearchFile>,
        max_results: usize,
    ) -> (r: ToolResult)
        ensures
            r.success,
            r.error is None,
            r.output@ == search_report(
                regex.source().0,
                files_scan(
                    sort_by_path(files@),
                    files@.len() as int,
                    match filter {
                        Some(p) => Some(p.source()),
                        None => None,
                    },
                    regex.source().0,
                    regex.source().1,
                    max_results,
                ),
                max_results,
            ),
    {
        let sorted = sort_files_by_path(files);
        proof {
            lemma_sort_by_path_len(files@);
        }
        self.search_files(regex, filter, &sorted, max_results)
    }
}

proof fn lemma_sort_by_path_len(s: Seq<SearchFile>)
    ensures
        sort_by_path(s).len() == s.len(),
    decreases s.len(),
{
    if s.len() > 0 {
        lemma_sort_by_path_len(s.drop_last());
        lemma_path_insert_range(sort_by_path(s.drop_last()), s.last());
    }
}

impl FilesystemSearchTool {
    /// Compiles the pattern of a search; a pattern that does not compile
    /// fails the call with `Invalid regex pattern: ` and the compiler's
    /// message.
    pub fn request_regex(&self, req: &SearchRequest) -> (r: Result<SearchRegex, ToolResult>)
        ensures
            match regex_build_error(req.pattern@, !req.case_sensitive) {
                None => r matches Ok(re) && re.source() == (req.pattern@, !req.case_sensitive),
                Some(e) => r matches Err(t) && failure(t, "Invalid regex pattern: "@ + e),
            },
    {
        match SearchRegex::new(req.pattern.as_str(), !req.case_sensitive) {
            Ok(re) => Ok(re),
            Err(e) => {
                let mut m = String::from_str("Invalid regex pattern: ");
                m.append(e.as_str());
                Err(fail(m))
            },
        }
    }
}

impl FilesystemSearchTool {
    /// Reads the arguments of a search: `pattern` (required, not blank),
    /// `path` (default `.`), `case_sensitive` (default true) and
    /// `max_results`; `filter` is the glob argument that limits the files.
    pub fn search_request(&self, args: &JsonValue, filter: Option<&str>) -> (r: Result<
        Result<SearchRequest, ToolResult>,
        String,
    >)
        ensures
            match str_arg(*args, "pattern"@) {
                None => r matches Err(m) && m@ == "Missing 'pattern' argument"@,
                Some(p) => if trim(p).len() == 0 {
                    r matches Ok(Err(t)) && failure(t, "Pattern cannot be empty"@)
                } else {
                    r matches Ok(Ok(q)) && {
                        &&& q.pattern@ == p
                        &&& q.path@ == match str_arg(*args, "path"@) {
                            Some(x) => x,
                            None => "."@,
                        }
                        &&& crate::env::opt_view(q.filter) == match filter {
                            Some(f) => Some(f@),
                            None => None,
                        }
                        &&& q.case_sensitive == match get_key(*args, "case_sensitive"@) {
                            Some(v) => match json_bool(v) {
                                Some(b) => b,
                                None => true,
                            },
                            None => true,
                        }
                        &&& q.max_results == max_results_of(*args)
                    }
                },
            },
    {
        let pattern = match str_arg_of(args, "pattern") {
            Some(p) => p,
            None => {
                return Err(String::from_str("Missing 'pattern' argument"));
            },
        };
        if crate::text::trim_str(pattern.as_str()).as_str().is_empty() {
            return Ok(Err(fail(String::from_str("Pattern cannot be empty"))));
        }
        let path = match str_arg_of(args, "path") {
            Some(p) => p,
            None => String::from_str("."),
        };
        let filter = match filter {
            Some(f) => Some(String::from_str(f)),
            None => None,
        };
        let case_sensitive = match args.get("case_sensitive") {
            Some(v) => match v.as_bool() {
                Some(b) => b,
                None => true,
            },
            None => true,
        };
        Ok(
            Ok(
                SearchRequest {
                    pattern,
                    path,
                    filter,
                    case_sensitive,
                    max_results: max_results_arg(args),
                },
            ),
        )
    }
}

// ── Matching ────────────────────────────────────────────────────────────────

/// A file to search: its path as shown, its path under the search root,
/// and its text (`None` when it could not be read).
pub struct SearchFile {
    pub path: String,
    pub relative: String,
    pub content: Option<String>,
}

/// Matches so far, and whether the limit stopped the search.
pub struct SearchScan {
    pub results: Seq<Seq<char>>,
    pub stopped: bool,
}

/// The result line of a match: `path:line:text`.
pub open spec fn match_line(path: Seq<char>, i: int, line: Seq<char>) -> Seq<char> {
    path + ":"@ + decimal_text((i + 1) as nat) + ":"@ + line
}

/// The scan after the first `n` lines of one file.
pub open spec fn lines_scan(
    st: SearchScan,
    path: Seq<char>,
    ls: Seq<Seq<char>>,
    n: int,
    pattern: Seq<char>,
    ci: bool,
    max: usize,
) -> SearchScan
    decreases n,
{
    if n <= 0 {
        st
    } else {
        let prev = lines_scan(st, path, ls, n - 1, pattern, ci, max);
        if prev.stopped || !regex_is_match(pattern, ci, ls[n - 1]) {
            prev
        } else {
            let r = prev.results.push(match_line(path, n - 1, ls[n - 1]));
            SearchScan { results: r, stopped: r.len() >= max }
        }
    }
}

pub open spec fn admitted(filter: Option<Seq<char>>, f: SearchFile) -> bool {
    match filter {
        None => true,
        Some(g) => glob_matches_path(g, f.relative@) || glob_matches_path(g, f.path@),
    }
}

/// The scan after the first `m` files.
pub open spec fn files_scan(
    files: Seq<SearchFile>,
    m: int,
    filter: Option<Seq<char>>,
    pattern: Seq<char>,
    ci: bool,
    max: usize,
) -> SearchScan
    decreases m,
{
    if m <= 0 {
        SearchScan { results: Seq::empty(), stopped: false }
    } else {
        let prev = files_scan(files, m - 1, filter, pattern, ci, max);
        let f = files[m - 1];
        if prev.stopped || !admitted(filter, f) {
            prev
        } else {
            match f.content {
                None => prev,
                Some(c) => {
                    let ls = lines(c@);
                    lines_scan(prev, f.path@, ls, ls.len() as int, pattern, ci, max)
                },
            }
        }
    }
}

/// The report of a search.
pub open spec fn search_report(pattern: Seq<char>, st: SearchScan, max: usize) -> Seq<char> {
    if st.results.len() == 0 {
        "No matches found for pattern '"@ + pattern + "'."@
    } else {
        join(st.results, "\n"@) + (if st.stopped {
            "\n\n[Results truncated: showing first "@ + decimal_text(max as nat) + " matches]"@
        } else {
            Seq::empty()
        }) + "\n\nTotal: "@ + decimal_text(st.results.len()) + " match(es)"@
    }
}

fn scan_file(
    results: &mut Vec<String>,
    stopped: &mut bool,
    path: &String,
    content: &String,
    regex: &SearchRegex,
    max: usize,
)
    requires
        !*old(stopped),
    ensures
        ({
            let ls = lines(content@);
            let st = lines_scan(
                SearchScan { results: views(old(results)@), stopped: false },
                path@,
                ls,
                ls.len() as int,
                regex.source().0,
                regex.source().1,
                max,
            );
            views(final(results)@) == st.results && *final(stopped) == st.stopped
        }),
{
    let v = chars_of(content.as_str());
    let ls = lines_of(v.as_slice());
    let ghost lv = cviews(ls@);
    let ghost start = SearchScan { results: views(results@), stopped: false };
    let mut i: usize = 0;
    while i < ls.len()
        invariant
            i <= ls@.len(),
            lv == cviews(ls@),
            lv == lines(content@),
            ({
                let st = lines_scan(start, path@, lv, i as int, regex.source().0, regex.source().1, max);
                views(results@) == st.results && *stopped == st.stopped
            }),
        decreases ls.len() - i,
    {
        if !*stopped {
            let line = crate::text::string_from(ls[i].as_slice());
            proof {
                assert(lv[i as int] == ls@[i as int]@);
            }
            if regex.is_match(line.as_str()) {
                let mut entry = path.clone();
                entry.append(":");
                crate::text::push_decimal(&mut entry, (i + 1) as u64);
                entry.append(":");
                entry.append(line.as_str());
                let ghost before = views(results@);
                results.push(entry);
                proof {
                    assert(views(results@) =~= before.push(entry@));
                }
                *stopped = results.len() >= max;
            }
        }
        i = i + 1;
    }
}

impl FilesystemSearchTool {
    /// Searches the files for the pattern, line by line, and reports the
    /// matches (`path:line:text`), at most `max_results` of them.
    pub fn search_files(
        &self,
        regex: &SearchRegex,
        filter: Option<&FilterPattern>,
        files: &Vec<SearchFile>,
        max_results: usize,
    ) -> (r: ToolResult)
        ensures
            r.success,
            r.error is None,
            r.output@ == search_report(
                regex.source().0,
                files_scan(
                    files@,
                    files@.len() as int,
                    match filter {
                        Some(p) => Some(p.source()),
                        None => None,
                    },
                    regex.source().0,
                    regex.source().1,
                    max_results,
                ),
                max_results,
            ),
    {
        let ghost inc = match filter {
            Some(p) => Some(p.source()),
            None => None,
        };
        let mut results: Vec<String> = Vec::new();
        let mut stopped = false;
        let mut m: usize = 0;
        proof {
            assert(views(results@) =~= Seq::<Seq<char>>::empty());
        }
        while m < files.len()
            invariant
                m <= files@.len(),
                inc == match filter {
                    Some(p) => Some(p.source()),
                    None => None,
                },
                ({
                    let st = files_scan(files@, m as int, inc, regex.source().0, regex.source().1, max_results);
                    views(results@) == st.results && stopped == st.stopped
                }),
            decreases files.len() - m,
        {
            let f = &files[m];
            if !stopped {
                let keep = match filter {
                    None => true,
                    Some(p) => p.matches_path(f.relative.as_str()) || p.matches_path(f.path.as_str()),
                };
                if keep {
                    match &f.content {
                        None => {},
                        Some(c) => {
                            scan_file(&mut results, &mut stopped, &f.path, c, regex, max_results);
                        },
                    }
                }
            }
            m = m + 1;
        }
        let output = if results.len() == 0 {
            let mut o = String::from_str("No matches found for pattern '");
            o.append(regex.pattern.as_str());
            o.append("'.");
            o
        } else {
            let mut o = crate::text::join_strings(&results, "\n");
            if stopped {
                o.append("\n\n[Results truncated: showing first ");
                crate::text::push_decimal(&mut o, max_results as u64);
                o.append(" matches]");
            }
            o.append("\n\nTotal: ");
            crate::text::push_decimal(&mut o, results.len() as u64);
            o.append(" match(es)");
            o
        };
        ToolResult { success: true, output, error: None }
    }
}

// ── Globbing ────────────────────────────────────────────────────────────────

/// Where `x` goes among the ascending `sorted`: after every element not
/// greater than it.
pub open spec fn insert_pos_asc(sorted: Seq<Seq<char>>, x: Seq<char>) -> int
    decreases sorted.len(),
{
    if sorted.len() == 0 {
        0
    } else if crate::text::lex_lt(x, sorted[0]) {
        0
    } else {
        1 + insert_pos_asc(sorted.drop_first(), x)
    }
}

/// `s` sorted in ascending order (as `sort` on strings does).
pub open spec fn sort_asc(s: Seq<Seq<char>>) -> Seq<Seq<char>>
    decreases s.len(),
{
    if s.len() == 0 {
        s
    } else {
        let t = sort_asc(s.drop_last());
        t.insert(insert_pos_asc(t, s.last()), s.last())
    }
}

proof fn lemma_insert_pos_asc(sorted: Seq<Seq<char>>, x: Seq<char>, p: int)
    requires
        0 <= p <= sorted.len(),
        forall|q: int| 0 <= q < p ==> !crate::text::lex_lt(x, #[trigger] sorted[q]),
        p == sorted.len() || crate::text::lex_lt(x, sorted[p]),
    ensures
        insert_pos_asc(sorted, x) == p,
    decreases p,
{
    if p > 0 {
        let t = sorted.drop_first();
        assert forall|q: int| 0 <= q < p - 1 implies !crate::text::lex_lt(x, #[trigger] t[q]) by {
            assert(t[q] == sorted[q + 1]);
        }
        if p < sorted.len() {
            assert(t[p - 1] == sorted[p]);
        }
        lemma_insert_pos_asc(t, x, p - 1);
        assert(!crate::text::lex_lt(x, sorted[0]));
    }
}

/// The strings sorted in ascending order.
pub fn sort_strings(v: &Vec<String>) -> (r: Vec<String>)
    ensures
        views(r@) == sort_asc(views(v@)),
{
    let mut out: Vec<String> = Vec::new();
    let mut i: usize = 0;
    while i < v.len()
        invariant
            i <= v.len(),
            views(out@) == sort_asc(views(v@).take(i as int)),
        decreases v.len() - i,
    {
        let x = v[i].clone();
        let ghost t = views(out@);
        let mut p: usize = 0;
        while p < out.len() && !crate::text::str_less(x.as_str(), out[p].as_str())
            invariant
                p <= out@.len(),
                t == views(out@),
                forall|q: int| 0 <= q < p ==> !crate::text::lex_lt(x@, #[trigger] t[q]),
            decreases out.len() - p,
        {
            p = p + 1;
        }
        proof {
            lemma_insert_pos_asc(t, x@, p as int);
            let s = views(v@).take(i + 1);
            assert(s.drop_last() == views(v@).take(i as int));
            assert(s.last() == v@[i as int]@);
        }
        out.insert(p, x);
        proof {
            assert(views(out@) =~= t.insert(p as int, x@));
        }
        i = i + 1;
    }
    proof {
        assert(views(v@).take(v@.len() as int) == views(v@));
    }
    out
}

/// The report of a glob search over the matching files found, in the order
/// found: the first `max_results` of them (at least one), sorted.
pub open spec fn glob_report(pattern: Seq<char>, found: Seq<Seq<char>>, max: usize) -> Seq<char> {
    let cap: int = if max == 0 {
        1
    } else {
        max as int
    };
    let kept = if found.len() < cap {
        found
    } else {
        found.take(cap)
    };
    let truncated = found.len() >= cap;
    if kept.len() == 0 {
        "No files matched pattern '"@ + pattern + "'."@
    } else {
        join(sort_asc(kept), "\n"@) + (if truncated {
            "\n\n[Results truncated: showing first "@ + decimal_text(max as nat) + " matches]"@
        } else {
            Seq::empty()
        }) + "\n\nTotal: "@ + decimal_text(kept.len()) + " file(s)"@
    }
}

impl FilesystemGlobTool {
    /// Reads the arguments of a glob call: `pattern` (required, not blank)
    /// and `max_results`.
    pub fn glob_request(&self, args: &JsonValue) -> (r: Result<Result<(String, usize), ToolResult>, String>)
        ensures
            match str_arg(*args, "pattern"@) {
                None => r matches Err(m) && m@ == "Missing 'pattern' argument"@,
                Some(p) => if trim(p).len() == 0 {
                    r matches Ok(Err(t)) && failure(t, "Pattern cannot be empty"@)
                } else {
                    r matches Ok(Ok((q, m))) && q@ == p && m == max_results_of(*args)
                },
            },
    {
        let pattern = match str_arg_of(args, "pattern") {
            Some(p) => p,
            None => {
                return Err(String::from_str("Missing 'pattern' argument"));
            },
        };
        if crate::text::trim_str(pattern.as_str()).as_str().is_empty() {
            return Ok(Err(fail(String::from_str("Pattern cannot be empty"))));
        }
        Ok(Ok((pattern, max_results_arg(args))))
    }

    /// Reports the files found for a pattern, given the matching regular
    /// files in the order the pattern yielded them.
    pub fn glob_result(&self, pattern: &str, found: &Vec<String>, max_results: usize) -> (r: ToolResult)
        ensures
            r.success,
            r.error is None,
            r.output@ == glob_report(pattern@, views(found@), max_results),
    {
        let cap: usize = if max_results == 0 {
            1
        } else {
            max_results
        };
        let mut kept: Vec<String> = Vec::new();
        let mut i: usize = 0;
        let n = if found.len() < cap {
            found.len()
        } else {
            cap
        };
        while i < n
            invariant
                i <= n,
                n <= found@.len(),
                views(kept@) == views(found@).take(i as int),
            decreases n - i,
        {
            let ghost before = kept@;
            let c = found[i].clone();
            kept.push(c);
            proof {
                assert(kept@ == before.push(c));
                assert(views(kept@) =~= views(before).push(c@));
                assert(views(found@)[i as int] == found@[i as int]@);
                assert(views(kept@) =~= views(found@).take(i + 1));
            }
            i = i + 1;
        }
        proof {
            if found@.len() < cap {
                assert(views(found@).take(n as int) == views(found@));
            }
        }
        let truncated = found.len() >= cap;
        if kept.len() == 0 {
            let mut o = String::from_str("No files matched pattern '");
            o.append(pattern);
            o.append("'.");
            return ToolResult { success: true, output: o, error: None };
        }
        let sorted = sort_strings(&kept);
        let mut o = crate::text::join_strings(&sorted, "\n");
        if truncated {
            o.append("\n\n[Results truncated: showing first ");
            crate::text::push_decimal(&mut o, max_results as u64);
            o.append(" matches]");
        }
        o.append("\n\nTotal: ");
        crate::text::push_decimal(&mut o, kept.len() as u64);
        o.append(" file(s)");
        ToolResult { success: true, output: o, error: None }
    }
}

} // verus!

use vstd::prelude::*;

use crate::config::WebFetchConfig;
use crate::json::{get_key, json_u64, JsonValue};
use crate::search::{regex_build_error, regex_replaced, SearchRegex};
use crate::text::{
    chars_of, contains_seq, cviews, join, lines, lines_of, lower, push_decimal, str_eq, string_from,
    to_lower, trim, trim_bounds, trim_str, trim_start, decimal_text, views,
};
use crate::tools::ToolResult;
use crate::urls::{parse_url, url_parse};

verus! {

/// The most attempts a fetch makes.
pub const MAX_REQUEST_ATTEMPTS: usize = 2;

/// The pause before a retry, in milliseconds.
pub const RETRY_DELAY_MS: u64 = 250;

/// Fetches web pages and turns them into readable text; the HTTP client is
/// the caller's.
pub struct WebFetchTool {
    config: WebFetchConfig,
}

/// What a fetch asks for.
pub struct FetchRequest {
    pub url: String,
    /// Markdown-like extraction (links kept) rather than plain text.
    pub markdown: bool,
    pub max_chars: usize,
}

/// Why a fetch is not made.
pub enum FetchRefusal {
    /// A required argument is missing: the call is an error.
    MissingArgument(String),
    /// The call fails with this result.
    Failed(ToolResult),
}

pub open spec fn str_arg(args: JsonValue, key: Seq<char>) -> Option<Seq<char>> {
    match get_key(args, key) {
        Some(JsonValue::Str(s, _)) => Some(s@),
        _ => None,
    }
}

pub open spec fn failed(r: ToolResult, error: Seq<char>) -> bool {
    &&& !r.success
    &&& r.output@.len() == 0
    &&& r.error matches Some(e) && e@ == error
}

fn failure(error: String) -> (r: ToolResult)
    ensures
        failed(r, error@),
{
    ToolResult { success: false, output: String::new(), error: Some(error) }
}

/// Why a URL is not fetched: it does not parse, its scheme is not http(s),
/// or it has no host.
pub open spec fn url_problem(url: Seq<char>) -> Option<Seq<char>> {
    match url_parse(url) {
        Err(e) => Some("Invalid URL: "@ + e),
        Ok((scheme, host, _port, _path, _query)) => if scheme != "http"@ && scheme != "https"@ {
            Some("Unsupported URL scheme '"@ + scheme + "', only http/https are allowed"@)
        } else if host is None {
            Some("URL must include a host"@)
        } else {
            None
        },
    }
}

/// The number of characters to keep: the number asked for, at least 1 and
/// at most the configured size; the configured size when none is asked for
/// or it does not fit a `usize`.
pub open spec fn clamped(requested: Option<u64>, max: usize) -> usize {
    match requested {
        Some(v) => if v > usize::MAX {
            max
        } else {
            let at_least_one: int = if v < 1 {
                1
            } else {
                v as int
            };
            if at_least_one > max {
                max
            } else {
                at_least_one as usize
            }
        },
        None => max,
    }
}

/// A status that is worth one more attempt: 429 or a server error.
pub open spec fn retry_status(status: u16) -> bool {
    status == 429 || (500 <= status && status <= 599)
}

/// Whether the page is HTML: by its content type, or by a body that starts
/// (after blanks, ignoring ASCII case) with a doctype or an `<html` tag.
pub open spec fn is_html(content_type: Seq<char>, body: Seq<char>) -> bool {
    contains_seq(content_type, "text/html"@) || "<!doctype html"@.is_prefix_of(lower(trim_start(body)))
        || "<html"@.is_prefix_of(lower(trim_start(body)))
}

/// The first `max` characters, and whether any were cut.
pub open spec fn truncated(text: Seq<char>, max: usize) -> (Seq<char>, bool) {
    if text.len() <= max {
        (text, false)
    } else {
        (text.take(max as int), true)
    }
}

/// Runs of line breaks longer than two shortened to two.
pub open spec fn squeeze_breaks(s: Seq<char>) -> Seq<char>
    decreases s.len(),
{
    if s.len() == 0 {
        Seq::empty()
    } else {
        let t = squeeze_breaks(s.drop_last());
        if s.last() == '\n' && t.len() >= 2 && t[t.len() - 1] == '\n' && t[t.len() - 2] == '\n' {
            t
        } else {
            t.push(s.last())
        }
    }
}

pub open spec fn trimmed_lines(ls: Seq<Seq<char>>) -> Seq<Seq<char>> {
    ls.map_values(|l: Seq<char>| trim(l))
}

/// Each line trimmed, at most one blank line in a row, the whole trimmed.
pub open spec fn normalized(text: Seq<char>) -> Seq<char> {
    trim(squeeze_breaks(join(trimmed_lines(lines(text)), "\n"@)))
}

/// `replace_all` with a fixed pattern, or the text unchanged should the
/// pattern not compile.
pub open spec fn replaced(pattern: Seq<char>, text: Seq<char>, rep: Seq<char>) -> Seq<char> {
    if regex_build_error(pattern, false) is None {
        regex_replaced(pattern, false, text, rep)
    } else {
        text
    }
}

/// HTML as text: scripts and styles dropped, `<br>` and the ends of blocks
/// made line breaks, other tags made spaces, blanks normalized.
pub open spec fn html_text(html: Seq<char>) -> Seq<char> {
    let no_script = replaced("(?is)<script[^>]*>.*?</script>"@, html, " "@);
    let no_style = replaced("(?is)<style[^>]*>.*?</style>"@, no_script, " "@);
    let with_breaks = replaced("(?is)<br\\s*/?>"@, no_style, "\n"@);
    let with_blocks = replaced("(?is)</(p|div|section|article|li|h[1-6])>"@, with_breaks, "\n"@);
    normalized(replaced("(?is)<[^>]+>"@, with_blocks, " "@))
}

/// HTML as text with links written `[text](href)`.
pub open spec fn html_markdown(html: Seq<char>) -> Seq<char> {
    html_text(
        replaced("(?is)<a\\s+[^>]*href=[\"']([^\"']+)[\"'][^>]*>(.*?)</a>"@, html, "[$2]($1)"@),
    )
}

/// The text of a fetched page, or why it cannot be given.
pub open spec fn extracted(content_type: Seq<char>, body: Seq<char>, markdown: bool) -> Result<
    Seq<char>,
    Seq<char>,
> {
    if is_html(content_type, body) {
        Ok(
            if markdown {
                html_markdown(body)
            } else {
                html_text(body)
            },
        )
    } else if contains_seq(content_type, "text/plain"@) || contains_seq(content_type, "text/markdown"@)
        || contains_seq(content_type, "application/json"@) || content_type.len() == 0 {
        Ok(body)
    } else {
        Err(
            "Unsupported content type: '"@ + content_type
                + "'. Supported: text/html, text/plain, text/markdown, application/json"@,
        )
    }
}

pub open spec fn bool_text(b: bool) -> Seq<char> {
    if b {
        "true"@
    } else {
        "false"@
    }
}

/// The report of a fetched page.
pub open spec fn page_report(
    url: Seq<char>,
    final_url: Seq<char>,
    status: Seq<char>,
    content_type: Seq<char>,
    text: Seq<char>,
    cut: bool,
) -> Seq<char> {
    "URL: "@ + url + "\nFinal URL: "@ + final_url + "\nStatus: "@ + status + "\nContent-Type: "@ + (
    if content_type.len() == 0 {
        "(unknown)"@
    } else {
        content_type
    }) + "\nLength: "@ + decimal_text(text.len()) + "\nTruncated: "@ + bool_text(cut) + "\n\n"@ + text
}

/// The error for a page that came back with a non-success status: the
/// status, the URL and at most 400 characters of the trimmed body.
pub open spec fn http_error_text(status: Seq<char>, url: Seq<char>, body: Seq<char>) -> Seq<char> {
    let (snippet, cut) = truncated(trim(body), 400);
    "web_fetch HTTP "@ + status + " for '"@ + url + "'. body"@ + (if cut {
        " (truncated)"@
    } else {
        ""@
    }) + ": "@ + snippet
}

/// The result for a fetched page.
pub open spec fn page_result_spec(
    req_url: Seq<char>,
    markdown: bool,
    max_chars: usize,
    final_url: Seq<char>,
    status_code: u16,
    status: Seq<char>,
    content_type: Seq<char>,
    body: Seq<char>,
) -> (bool, Seq<char>, Option<Seq<char>>) {
    let ct = lower(content_type);
    if !(200 <= status_code && status_code <= 299) {
        (false, Seq::empty(), Some(http_error_text(status, req_url, body)))
    } else {
        match extracted(ct, body, markdown) {
            Err(e) => (false, Seq::empty(), Some(e)),
            Ok(text) => {
                let (kept, cut) = truncated(text, max_chars);
                (true, page_report(req_url, final_url, status, ct, kept, cut), None)
            },
        }
    }
}

pub open spec fn result_view(r: ToolResult) -> (bool, Seq<char>, Option<Seq<char>>) {
    (
        r.success,
        r.output@,
        match r.error {
            Some(e) => Some(e@),
            None => None,
        },
    )
}

fn replace_with(pattern: &str, text: &str, rep: &str) -> (r: String)
    ensures
        r@ == replaced(pattern@, text@, rep@),
{
    match SearchRegex::new(pattern, false) {
        Ok(re) => re.replace_all(text, rep),
        Err(_) => String::from_str(text),
    }
}

fn squeeze_breaks_of(v: &[char]) -> (r: Vec<char>)
    ensures
        r@ == squeeze_breaks(v@),
{
    let mut out: Vec<char> = Vec::new();
    let mut i: usize = 0;
    while i < v.len()
        invariant
            i <= v@.len(),
            out@ == squeeze_breaks(v@.take(i as int)),
        decreases v.len() - i,
    {
        proof {
            assert(v@.take(i + 1).drop_last() =~= v@.take(i as int));
            assert(v@.take(i + 1).last() == v@[i as int]);
        }
        let n = out.len();
        if !(v[i] == '\n' && n >= 2 && out[n - 1] == '\n' && out[n - 2] == '\n') {
            out.push(v[i]);
        }
        i = i + 1;
    }
    proof {
        assert(v@.take(v@.len() as int) =~= v@);
    }
    out
}

impl WebFetchTool {
    pub closed spec fn config_spec(&self) -> WebFetchConfig {
        self.config
    }

    pub fn new(config: WebFetchConfig) -> (r: Self)
        ensures
            r.config_spec() == config,
    {
        WebFetchTool { config }
    }

    pub fn name(&self) -> (r: &'static str)
        ensures
            r@ == "web_fetch"@,
    {
        "web_fetch"
    }

    pub fn description(&self) -> (r: &'static str)
        ensures
            r@ == "Fetch a URL and extract readable text/markdown content."@,
    {
        "Fetch a URL and extract readable text/markdown content."
    }

    /// The number of characters to keep for a request.
    pub fn clamp_max_chars(&self, requested: Option<u64>) -> (r: usize)
        ensures
            r == clamped(requested, self.config_spec().max_response_size),
    {
        let max = self.config.max_response_size;
        match requested {
            Some(v) => {
                if v as u128 > usize::MAX as u128 {
                    max
                } else {
                    let n = v as usize;
                    let n = if n < 1 {
                        1
                    } else {
                        n
                    };
                    if n > max {
                        max
                    } else {
                        n
                    }
                }
            },
            None => max,
        }
    }

    /// Checks that a URL can be fetched.
    pub fn validate_url(url: &str) -> (r: Result<(), String>)
        ensures
            match r {
                Ok(()) => url_problem(url@) is None,
                Err(e) => url_problem(url@) == Some(e@),
            },
    {
        match parse_url(url) {
            Err(e) => {
                let mut m = String::from_str("Invalid URL: ");
                m.append(e.as_str());
                Err(m)
            },
            Ok(p) => {
                if !str_eq(p.scheme.as_str(), "http") && !str_eq(p.scheme.as_str(), "https") {
                    let mut m = String::from_str("Unsupported URL scheme '");
                    m.append(p.scheme.as_str());
                    m.append("', only http/https are allowed");
                    Err(m)
                } else if p.host.is_none() {
                    Err(String::from_str("URL must include a host"))
                } else {
                    Ok(())
                }
            },
        }
    }

    /// What a call asks for: the URL (required), the extraction mode
    /// (`text` by default, or `markdown`, any case) and the character limit.
    pub fn fetch_request(&self, args: &JsonValue) -> (r: Result<FetchRequest, FetchRefusal>)
        ensures
            match str_arg(*args, "url"@) {
                None => r matches Err(FetchRefusal::MissingArgument(m)) && m@ == "Missing required argument: url"@,
                Some(url) => {
                    let mode = match str_arg(*args, "extract_mode"@) {
                        Some(m) => lower(m),
                        None => "text"@,
                    };
                    if mode != "text"@ && mode != "markdown"@ {
                        r matches Err(FetchRefusal::Failed(t)) && failed(t, "extract_mode must be 'text' or 'markdown'"@)
                    } else {
                        match url_problem(url) {
                            Some(e) => r matches Err(FetchRefusal::Failed(t)) && failed(t, e),
                            None => r matches Ok(q) && q.url@ == url && q.markdown == (mode == "markdown"@)
                                && q.max_chars == clamped(
                                match get_key(*args, "max_chars"@) {
                                    Some(v) => json_u64(v),
                                    None => None,
                                },
                                self.config_spec().max_response_size,
                            ),
                        }
                    }
                },
            },
    {
        let url = match args.get("url") {
            Some(v) => match v.as_str() {
                Some(s) => s.clone(),
                None => return Err(FetchRefusal::MissingArgument(String::from_str("Missing required argument: url"))),
            },
            None => return Err(FetchRefusal::MissingArgument(String::from_str("Missing required argument: url"))),
        };
        let mode = match args.get("extract_mode") {
            Some(v) => match v.as_str() {
                Some(m) => to_lower(m.as_str()),
                None => String::from_str("text"),
            },
            None => String::from_str("text"),
        };
        let is_text = str_eq(mode.as_str(), "text");
        let is_markdown = str_eq(mode.as_str(), "markdown");
        if !is_text && !is_markdown {
            return Err(FetchRefusal::Failed(failure(String::from_str("extract_mode must be 'text' or 'markdown'"))));
        }
        let requested = match args.get("max_chars") {
            Some(v) => v.as_u64(),
            None => None,
        };
        let max_chars = self.clamp_max_chars(requested);
        match Self::validate_url(url.as_str()) {
            Err(e) => Err(FetchRefusal::Failed(failure(e))),
            Ok(()) => Ok(FetchRequest { url, markdown: is_markdown, max_chars }),
        }
    }

    /// Whether a response with this status is worth one more attempt.
    pub fn should_retry_status(status: u16) -> (r: bool)
        ensures
            r == retry_status(status),
    {
        status == 429 || (500 <= status && status <= 599)
    }

    /// Whether a page is HTML.
    pub fn detect_html(content_type: &str, body: &str) -> (r: bool)
        ensures
            r == is_html(content_type@, body@),
    {
        let ct = chars_of(content_type);
        let needle = chars_of("text/html");
        if crate::text::contains(ct.as_slice(), needle.as_slice()) {
            return true;
        }
        let b = chars_of(body);
        let probe_v = crate::text::trim_start_vec(b.as_slice());
        let probe = to_lower(string_from(probe_v.as_slice()).as_str());
        let pv = chars_of(probe.as_str());
        let d = chars_of("<!doctype html");
        let h = chars_of("<html");
        crate::text::starts_with(pv.as_slice(), d.as_slice()) || crate::text::starts_with(
            pv.as_slice(),
            h.as_slice(),
        )
    }

    /// The first `max_chars` characters of `text`, and whether any were cut.
    pub fn truncate_chars(text: &str, max_chars: usize) -> (r: (String, bool))
        ensures
            (r.0@, r.1) == truncated(text@, max_chars),
    {
        let v = chars_of(text);
        if v.len() <= max_chars {
            return (String::from_str(text), false);
        }
        (crate::text::string_from_range(v.as_slice(), 0, max_chars), true)
    }

    /// Trims every line, keeps at most one blank line in a row and trims the
    /// whole.
    pub fn normalize_whitespace(text: &str) -> (r: String)
        ensures
            r@ == normalized(text@),
    {
        let v = chars_of(text);
        let ls = lines_of(v.as_slice());
        let mut parts: Vec<String> = Vec::new();
        let mut i: usize = 0;
        while i < ls.len()
            invariant
                i <= ls@.len(),
                cviews(ls@) == lines(text@),
                views(parts@) == trimmed_lines(cviews(ls@)).take(i as int),
            decreases ls.len() - i,
        {
            let line = string_from(ls[i].as_slice());
            let t = trim_str(line.as_str());
            let ghost before = parts@;
            parts.push(t);
            proof {
                assert(cviews(ls@)[i as int] == ls@[i as int]@);
                assert(views(parts@) =~= views(before).push(t@));
                assert(trimmed_lines(cviews(ls@)).take(i + 1) =~= trimmed_lines(cviews(ls@)).take(
                    i as int,
                ).push(trim(cviews(ls@)[i as int])));
            }
            i = i + 1;
        }
        proof {
            assert(trimmed_lines(cviews(ls@)).take(ls@.len() as int) =~= trimmed_lines(cviews(ls@)));
        }
        let joined = crate::text::join_strings(&parts, "\n");
        let jv = chars_of(joined.as_str());
        let squeezed = squeeze_breaks_of(jv.as_slice());
        trim_str(string_from(squeezed.as_slice()).as_str())
    }

    /// HTML as readable text.
    pub fn html_to_text(html: &str) -> (r: String)
        ensures
            r@ == html_text(html@),
    {
        let no_script = replace_with("(?is)<script[^>]*>.*?</script>", html, " ");
        let no_style = replace_with("(?is)<style[^>]*>.*?</style>", no_script.as_str(), " ");
        let with_breaks = replace_with("(?is)<br\\s*/?>", no_style.as_str(), "\n");
        let with_blocks = replace_with(
            "(?is)</(p|div|section|article|li|h[1-6])>",
            with_breaks.as_str(),
            "\n",
        );
        let stripped = replace_with("(?is)<[^>]+>", with_blocks.as_str(), " ");
        Self::normalize_whitespace(stripped.as_str())
    }

    /// HTML as readable text with links kept as `[text](href)`.
    pub fn html_to_markdown_like(html: &str) -> (r: String)
        ensures
            r@ == html_markdown(html@),
    {
        let with_links = replace_with(
            "(?is)<a\\s+[^>]*href=[\"']([^\"']+)[\"'][^>]*>(.*?)</a>",
            html,
            "[$2]($1)",
        );
        Self::html_to_text(with_links.as_str())
    }

    /// The result for a page fetched for `req`: its status, final URL,
    /// content type and body decide it.
    pub fn page_result(
        req: &FetchRequest,
        final_url: &str,
        status_code: u16,
        status: &str,
        content_type: &str,
        body: &str,
    ) -> (r: ToolResult)
        ensures
            result_view(r) == page_result_spec(
                req.url@,
                req.markdown,
                req.max_chars,
                final_url@,
                status_code,
                status@,
                content_type@,
                body@,
            ),
    {
        let ct = to_lower(content_type);
        if !(200 <= status_code && status_code <= 299) {
            let tb = trim_str(body);
            let (snippet, cut) = Self::truncate_chars(tb.as_str(), 400);
            let mut m = String::from_str("web_fetch HTTP ");
            m.append(status);
            m.append(" for '");
            m.append(req.url.as_str());
            m.append("'. body");
            if cut {
                m.append(" (truncated)");
            }
            m.append(": ");
            m.append(snippet.as_str());
            proof {
                reveal_strlit("");
                assert(m@ =~= http_error_text(status@, req.url@, body@));
            }
            return failure(m);
        }
        let text = if Self::detect_html(ct.as_str(), body) {
            if req.markdown {
                Self::html_to_markdown_like(body)
            } else {
                Self::html_to_text(body)
            }
        } else {
            let cv = chars_of(ct.as_str());
            let plain = crate::text::contains(cv.as_slice(), chars_of("text/plain").as_slice());
            let md = crate::text::contains(cv.as_slice(), chars_of("text/markdown").as_slice());
            let js = crate::text::contains(cv.as_slice(), chars_of("application/json").as_slice());
            if plain || md || js || ct.as_str().is_empty() {
                String::from_str(body)
            } else {
                let mut m = String::from_str("Unsupported content type: '");
                m.append(ct.as_str());
                m.append("'. Supported: text/html, text/plain, text/markdown, application/json");
                return failure(m);
            }
        };
        let (kept, cut) = Self::truncate_chars(text.as_str(), req.max_chars);
        let mut out = String::from_str("URL: ");
        out.append(req.url.as_str());
        out.append("\nFinal URL: ");
        out.append(final_url);
        out.append("\nStatus: ");
        out.append(status);
        out.append("\nContent-Type: ");
        if ct.as_str().is_empty() {
            out.append("(unknown)");
        } else {
            out.append(ct.as_str());
        }
        out.append("\nLength: ");
        let kv = chars_of(kept.as_str());
        push_decimal(&mut out, kv.len() as u64);
        out.append("\nTruncated: ");
        if cut {
            out.append("true");
        } else {
            out.append("false");
        }
        out.append("\n\n");
        out.append(kept.as_str());
        proof {
            reveal_strlit("");
            assert(out@ =~= page_report(req.url@, final_url@, status@, ct@, kept@, cut));
        }
        ToolResult { success: true, output: out, error: None }
    }
}

/// A successful response whose content type names plain text, markdown or
/// JSON (and that is no HTML page) is reported with its body as it came,
/// cut to `max_chars` characters; the report succeeds and ends with that
/// text.
pub proof fn law_text_like_pages_are_reported(
    req_url: Seq<char>,
    markdown: bool,
    max_chars: usize,
    final_url: Seq<char>,
    status_code: u16,
    status: Seq<char>,
    content_type: Seq<char>,
    body: Seq<char>,
)
    requires
        200 <= status_code <= 299,
        contains_seq(lower(content_type), "application/json"@) || contains_seq(
            lower(content_type),
            "text/plain"@,
        ) || contains_seq(lower(content_type), "text/markdown"@),
        !is_html(lower(content_type), body),
    ensures
        ({
            let r = page_result_spec(req_url, markdown, max_chars, final_url, status_code, status, content_type, body);
            let kept = if body.len() <= max_chars {
                body
            } else {
                body.take(max_chars as int)
            };
            &&& r.0
            &&& r.2 is None
            &&& kept.is_suffix_of(r.1)
        }),
{
    let ct = lower(content_type);
    assert(extracted(ct, body, markdown) == Ok::<Seq<char>, Seq<char>>(body));
    let (kept, cut) = truncated(body, max_chars);
    let rep = page_report(req_url, final_url, status, ct, kept, cut);
    let n = rep.len() - kept.len();
    assert(rep.subrange(n, rep.len() as int) =~= kept);
}

} // verus!

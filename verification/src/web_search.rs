use vstd::prelude::*;

use crate::config::{clamp_usize, nonblank};
use crate::env::{opt_view, Env};
use crate::json::{get_key, json_parse, json_u64, lookup, lookup_path, parse_json, JsonValue};
use crate::text::{chars_of, join, lower, starts_with, trim, trim_str, views};
use crate::tools::{ToolResult, WebSearchTool};
use crate::web_fetch::failed;

verus! {

/// The OpenRouter API the search goes to.
pub const OPENROUTER_API_BASE: &'static str = "https://openrouter.ai/api/v1";

/// A text that is an http(s) URL.
pub open spec fn http_url(s: Seq<char>) -> bool {
    "http://"@.is_prefix_of(s) || "https://"@.is_prefix_of(s)
}

pub open spec fn keyed_url(v: JsonValue, key: Seq<char>) -> Seq<Seq<char>> {
    match get_key(v, key) {
        Some(JsonValue::Str(s, _)) => if http_url(s@) {
            seq![s@]
        } else {
            Seq::empty()
        },
        _ => Seq::empty(),
    }
}

/// The URLs cited in a value: a URL string; in an array, those of each
/// item; in an object, its `url`, `href` and `link` strings, then those of
/// each of its values that is an array.
pub open spec fn urls_in(v: JsonValue) -> Seq<Seq<char>>
    decreases v, 0int,
{
    match v {
        JsonValue::Str(s, _) => if http_url(s@) {
            seq![s@]
        } else {
            Seq::empty()
        },
        JsonValue::Array(items, _) => urls_in_items(items@, items@.len() as int),
        JsonValue::Object(entries, _) => keyed_url(v, "url"@) + keyed_url(v, "href"@) + keyed_url(
            v,
            "link"@,
        ) + urls_in_values(entries@, entries@.len() as int),
        _ => Seq::empty(),
    }
}

pub open spec fn urls_in_items(items: Seq<JsonValue>, n: int) -> Seq<Seq<char>>
    decreases items, n,
{
    if n <= 0 || n > items.len() {
        Seq::empty()
    } else {
        urls_in_items(items, n - 1) + urls_in(items[n - 1])
    }
}

pub open spec fn urls_in_values(entries: Seq<(String, JsonValue)>, n: int) -> Seq<Seq<char>>
    decreases entries, n,
{
    if n <= 0 || n > entries.len() {
        Seq::empty()
    } else {
        urls_in_values(entries, n - 1) + if entries[n - 1].1 is Array {
            urls_in(entries[n - 1].1)
        } else {
            Seq::empty()
        }
    }
}

pub open spec fn urls_at(v: Option<JsonValue>) -> Seq<Seq<char>> {
    match v {
        Some(x) => urls_in(x),
        None => Seq::empty(),
    }
}

/// Each URL once, where it first occurs.
pub open spec fn first_occurrences(s: Seq<Seq<char>>) -> Seq<Seq<char>>
    decreases s.len(),
{
    if s.len() == 0 {
        Seq::empty()
    } else if s.drop_last().contains(s.last()) {
        first_occurrences(s.drop_last())
    } else {
        first_occurrences(s.drop_last()).push(s.last())
    }
}

pub open spec fn message_path(field: Seq<char>) -> Seq<Seq<char>> {
    seq!["choices"@, "0"@, "message"@, field]
}

/// The non-blank text parts of a content array, each trimmed: a string
/// part, or the `text` string of an object part.
pub open spec fn text_segments(parts: Seq<JsonValue>) -> Seq<Seq<char>>
    decreases parts.len(),
{
    if parts.len() == 0 {
        Seq::empty()
    } else {
        let prev = text_segments(parts.drop_last());
        let t = match parts.last() {
            JsonValue::Str(s, _) => Some(trim(s@)),
            p => match get_key(p, "text"@) {
                Some(JsonValue::Str(s, _)) => Some(trim(s@)),
                _ => None,
            },
        };
        match t {
            Some(x) => if x.len() > 0 {
                prev.push(x)
            } else {
                prev
            },
            None => prev,
        }
    }
}

/// The text of the first choice's message: a string trimmed, or the
/// segments of an array joined by line breaks.
pub open spec fn message_content(v: JsonValue) -> Seq<char> {
    match lookup(v, message_path("content"@)) {
        Some(JsonValue::Str(s, _)) => trim(s@),
        Some(JsonValue::Array(parts, _)) => join(text_segments(parts@), "\n"@),
        _ => Seq::empty(),
    }
}

/// The cited URLs of a response, each once: top-level `citations`, then the
/// message's `citations` and `annotations`.
pub open spec fn cited_urls(v: JsonValue) -> Seq<Seq<char>> {
    first_occurrences(
        urls_at(get_key(v, "citations"@)) + urls_at(lookup(v, message_path("citations"@))) + urls_at(
            lookup(v, message_path("annotations"@)),
        ),
    )
}

pub open spec fn source_lines(urls: Seq<Seq<char>>) -> Seq<Seq<char>> {
    Seq::new(urls.len(), |i: int| crate::text::decimal_text((i + 1) as nat) + ". "@ + urls[i])
}

/// The search report: a heading, the text, then the numbered sources; an
/// error when the response has neither text nor sources.
pub open spec fn search_report(v: JsonValue, query: Seq<char>, model: Seq<char>) -> Result<
    Seq<char>,
    Seq<char>,
> {
    let content = message_content(v);
    let urls = cited_urls(v);
    if content.len() == 0 && urls.len() == 0 {
        Err("openrouter response missing both content and citations"@)
    } else {
        let head = seq!["Search results for: "@ + query + " (via OpenRouter:"@ + model + ")"@];
        let with_text = if content.len() > 0 {
            head + seq![Seq::<char>::empty(), content]
        } else {
            head
        };
        let all = if urls.len() > 0 {
            with_text + seq![Seq::<char>::empty(), "Sources:"@] + source_lines(urls)
        } else {
            with_text
        };
        Ok(join(all, "\n"@))
    }
}

fn is_http_url(s: &str) -> (r: bool)
    ensures
        r == http_url(s@),
{
    let v = chars_of(s);
    starts_with(v.as_slice(), chars_of("http://").as_slice()) || starts_with(
        v.as_slice(),
        chars_of("https://").as_slice(),
    )
}

fn push_keyed_url(v: &JsonValue, key: &str, out: &mut Vec<String>)
    ensures
        views(final(out)@) == views(old(out)@) + keyed_url(*v, key@),
{
    let ghost before = out@;
    match v.get(key) {
        Some(x) => match x {
            JsonValue::Str(s, _) => {
                if is_http_url(s.as_str()) {
                    out.push(s.clone());
                    proof {
                        assert(views(out@) =~= views(before) + seq![s@]);
                    }
                    return;
                }
            },
            _ => {},
        },
        None => {},
    }
    proof {
        assert(views(out@) =~= views(before) + Seq::<Seq<char>>::empty());
    }
}

fn collect_urls(v: &JsonValue, out: &mut Vec<String>)
    ensures
        views(final(out)@) == views(old(out)@) + urls_in(*v),
    decreases *v, 0int,
{
    let ghost before = out@;
    match v {
        JsonValue::Str(s, _) => {
            if is_http_url(s.as_str()) {
                out.push(s.clone());
                proof {
                    assert(views(out@) =~= views(before) + seq![s@]);
                }
            } else {
                proof {
                    assert(views(out@) =~= views(before) + Seq::<Seq<char>>::empty());
                }
            }
        },
        JsonValue::Array(items, _) => {
            collect_item_urls(items, items.len(), out);
        },
        JsonValue::Object(entries, _) => {
            push_keyed_url(v, "url", out);
            push_keyed_url(v, "href", out);
            push_keyed_url(v, "link", out);
            let ghost mid = out@;
            collect_value_urls(entries, entries.len(), out);
            proof {
                assert(views(out@) =~= views(before) + urls_in(*v));
            }
        },
        _ => {
            proof {
                assert(views(out@) =~= views(before) + Seq::<Seq<char>>::empty());
            }
        },
    }
}

fn collect_item_urls(items: &Vec<JsonValue>, n: usize, out: &mut Vec<String>)
    requires
        n <= items@.len(),
    ensures
        views(final(out)@) == views(old(out)@) + urls_in_items(items@, n as int),
    decreases items@, n,
{
    if n == 0 {
        proof {
            assert(views(out@) =~= views(old(out)@) + Seq::<Seq<char>>::empty());
        }
        return;
    }
    let ghost before = out@;
    collect_item_urls(items, n - 1, out);
    let ghost mid = out@;
    collect_urls(&items[n - 1], out);
    proof {
        assert(views(out@) =~= views(before) + urls_in_items(items@, n as int));
    }
}

fn collect_value_urls(entries: &Vec<(String, JsonValue)>, n: usize, out: &mut Vec<String>)
    requires
        n <= entries@.len(),
    ensures
        views(final(out)@) == views(old(out)@) + urls_in_values(entries@, n as int),
    decreases entries@, n,
{
    if n == 0 {
        proof {
            assert(views(out@) =~= views(old(out)@) + Seq::<Seq<char>>::empty());
        }
        return;
    }
    let ghost before = out@;
    collect_value_urls(entries, n - 1, out);
    let x = &entries[n - 1].1;
    match x {
        JsonValue::Array(_, _) => {
            collect_urls(x, out);
        },
        _ => {
            proof {
                assert(views(out@) =~= views(out@) + Seq::<Seq<char>>::empty());
            }
        },
    }
    proof {
        assert(views(out@) =~= views(before) + urls_in_values(entries@, n as int));
    }
}

fn dedupe_urls(urls: &Vec<String>) -> (r: Vec<String>)
    ensures
        views(r@) == first_occurrences(views(urls@)),
{
    let mut out: Vec<String> = Vec::new();
    let mut i: usize = 0;
    while i < urls.len()
        invariant
            i <= urls@.len(),
            views(out@) == first_occurrences(views(urls@).take(i as int)),
            forall|k: int| 0 <= k < out@.len() ==> views(urls@).take(i as int).contains(#[trigger] views(out@)[k]),
            forall|k: int| 0 <= k < i ==> views(out@).contains(#[trigger] views(urls@)[k]),
        decreases urls.len() - i,
    {
        let ghost t = views(urls@).take(i + 1);
        proof {
            assert(t.drop_last() =~= views(urls@).take(i as int));
            assert(t.last() == urls@[i as int]@);
        }
        let seen = crate::text::contains_str(&out, urls[i].as_str());
        let ghost before = out@;
        if !seen {
            out.push(urls[i].clone());
            proof {
                assert(views(out@) =~= views(before).push(urls@[i as int]@));
            }
        }
        proof {
            if seen {
                let k = choose|k: int| 0 <= k < views(before).len() && views(before)[k] == urls@[i as int]@;
                assert(views(urls@).take(i as int).contains(views(before)[k]));
                assert(t.drop_last().contains(t.last()));
            } else {
                if t.drop_last().contains(t.last()) {
                    let j = choose|j: int| 0 <= j < t.drop_last().len() && t.drop_last()[j] == t.last();
                    assert(views(urls@)[j] == t.last());
                    assert(views(before).contains(views(urls@)[j]));
                }
            }
            assert forall|k: int| 0 <= k < out@.len() implies views(urls@).take(i + 1).contains(
                #[trigger] views(out@)[k],
            ) by {
                if k < before.len() {
                    assert(views(before)[k] == views(out@)[k]);
                    let j = choose|j: int| 0 <= j < i && views(urls@).take(i as int)[j] == views(before)[k];
                    assert(views(urls@).take(i + 1)[j] == views(before)[k]);
                } else {
                    assert(views(urls@).take(i + 1)[i as int] == views(out@)[k]);
                }
            }
            assert forall|k: int| 0 <= k < i + 1 implies views(out@).contains(#[trigger] views(urls@)[k]) by {
                if k < i {
                    let j = choose|j: int| 0 <= j < before.len() && views(before)[j] == views(urls@)[k];
                    assert(views(out@)[j] == views(before)[j]);
                } else {
                    if !seen {
                        assert(views(out@)[before.len() as int] == views(urls@)[k]);
                    } else {
                        let j = choose|j: int| 0 <= j < views(before).len() && views(before)[j] == urls@[i as int]@;
                        assert(views(out@)[j] == views(before)[j]);
                    }
                }
            }
        }
        i = i + 1;
    }
    proof {
        assert(views(urls@).take(urls@.len() as int) =~= views(urls@));
    }
    out
}

fn message_lookup<'a>(v: &'a JsonValue, field: &str) -> (r: Option<&'a JsonValue>)
    ensures
        match r {
            Some(x) => lookup(*v, message_path(field@)) == Some(*x),
            None => lookup(*v, message_path(field@)) is None,
        },
{
    let mut path: Vec<String> = Vec::new();
    path.push(String::from_str("choices"));
    path.push(String::from_str("0"));
    path.push(String::from_str("message"));
    path.push(String::from_str(field));
    proof {
        assert(views(path@) =~= message_path(field@));
    }
    lookup_path(v, &path)
}

fn text_segments_of(parts: &Vec<JsonValue>) -> (r: Vec<String>)
    ensures
        views(r@) == text_segments(parts@),
{
    let mut out: Vec<String> = Vec::new();
    let mut i: usize = 0;
    while i < parts.len()
        invariant
            i <= parts@.len(),
            views(out@) == text_segments(parts@.take(i as int)),
        decreases parts.len() - i,
    {
        proof {
            assert(parts@.take(i + 1).drop_last() =~= parts@.take(i as int));
            assert(parts@.take(i + 1).last() == parts@[i as int]);
        }
        let p = &parts[i];
        let t = match p {
            JsonValue::Str(s, _) => Some(trim_str(s.as_str())),
            _ => match p.get("text") {
                Some(JsonValue::Str(s, _)) => Some(trim_str(s.as_str())),
                _ => None,
            },
        };
        match t {
            Some(x) => {
                if !x.as_str().is_empty() {
                    let ghost before = out@;
                    out.push(x);
                    proof {
                        assert(views(out@) =~= views(before).push(out@.last()@));
                    }
                }
            },
            None => {},
        }
        i = i + 1;
    }
    proof {
        assert(parts@.take(parts@.len() as int) =~= parts@);
    }
    out
}

fn message_content_of(v: &JsonValue) -> (r: String)
    ensures
        r@ == message_content(*v),
{
    match message_lookup(v, "content") {
        Some(JsonValue::Str(s, _)) => trim_str(s.as_str()),
        Some(JsonValue::Array(parts, _)) => {
            let segs = text_segments_of(parts);
            crate::text::join_strings(&segs, "\n")
        },
        _ => String::new(),
    }
}

impl WebSearchTool {
    pub fn name(&self) -> (r: &'static str)
        ensures
            r@ == "web_search"@,
    {
        "web_search"
    }

    pub fn description(&self) -> (r: &'static str)
        ensures
            r@ == "Search the web and return relevant titles, URLs, and snippets."@,
    {
        "Search the web and return relevant titles, URLs, and snippets."
    }

    /// The report for a parsed search response: the message text and the
    /// cited URLs, each once, numbered.
    pub fn format_openrouter_results(value: &JsonValue, query: &str, model: &str) -> (r: Result<
        String,
        String,
    >)
        ensures
            match r {
                Ok(s) => search_report(*value, query@, model@) == Ok::<Seq<char>, Seq<char>>(s@),
                Err(e) => search_report(*value, query@, model@) == Err::<Seq<char>, Seq<char>>(e@),
            },
    {
        let content = message_content_of(value);
        let mut urls: Vec<String> = Vec::new();
        match value.get("citations") {
            Some(c) => collect_urls(c, &mut urls),
            None => {},
        }
        let ghost u1 = views(urls@);
        match message_lookup(value, "citations") {
            Some(c) => collect_urls(c, &mut urls),
            None => {},
        }
        match message_lookup(value, "annotations") {
            Some(c) => collect_urls(c, &mut urls),
            None => {},
        }
        proof {
            assert(views(urls@) =~= urls_at(get_key(*value, "citations"@)) + urls_at(
                lookup(*value, message_path("citations"@)),
            ) + urls_at(lookup(*value, message_path("annotations"@))));
        }
        let deduped = dedupe_urls(&urls);
        if content.as_str().is_empty() && deduped.len() == 0 {
            return Err(String::from_str("openrouter response missing both content and citations"));
        }
        let mut lines: Vec<String> = Vec::new();
        let mut head = String::from_str("Search results for: ");
        head.append(query);
        head.append(" (via OpenRouter:");
        head.append(model);
        head.append(")");
        lines.push(head);
        if !content.as_str().is_empty() {
            lines.push(String::new());
            lines.push(content);
        }
        let ghost with_text = views(lines@);
        if deduped.len() > 0 {
            lines.push(String::new());
            lines.push(String::from_str("Sources:"));
            let ghost base = views(lines@);
            let mut k: usize = 0;
            while k < deduped.len()
                invariant
                    k <= deduped@.len(),
                    views(lines@) == base + source_lines(views(deduped@)).take(k as int),
                decreases deduped.len() - k,
            {
                let mut line = String::new();
                crate::text::push_decimal(&mut line, (k + 1) as u64);
                line.append(". ");
                line.append(deduped[k].as_str());
                let ghost before = lines@;
                lines.push(line);
                proof {
                    assert(source_lines(views(deduped@)).take(k + 1) =~= source_lines(views(deduped@)).take(
                        k as int,
                    ).push(source_lines(views(deduped@))[k as int]));
                    assert(views(lines@) =~= views(before).push(line@));
                }
                k = k + 1;
            }
            proof {
                assert(source_lines(views(deduped@)).take(deduped@.len() as int) =~= source_lines(
                    views(deduped@),
                ));
            }
        }
        proof {
            reveal_strlit("");
            assert(views(lines@) =~= {
                let head = seq!["Search results for: "@ + query@ + " (via OpenRouter:"@ + model@ + ")"@];
                let with_text = if content@.len() > 0 {
                    head + seq![Seq::<char>::empty(), content@]
                } else {
                    head
                };
                if views(deduped@).len() > 0 {
                    with_text + seq![Seq::<char>::empty(), "Sources:"@] + source_lines(views(deduped@))
                } else {
                    with_text
                }
            });
        }
        Ok(crate::text::join_strings(&lines, "\n"))
    }
}

/// The most attempts a search makes.
pub const MAX_SEARCH_ATTEMPTS: usize = 2;

/// Why a search is not made.
pub enum SearchRefusal {
    /// The call is an error with this message.
    Error(String),
    /// The call fails with this result.
    Failed(ToolResult),
}

/// What the search request carries.
pub struct SearchPlan {
    pub endpoint: String,
    pub api_key: String,
    pub model: String,
    pub query: String,
    /// The web plugin's result limit.
    pub plugin_max_results: usize,
    pub search_prompt: Option<String>,
}

/// What to do with one response.
pub enum SearchStep {
    /// Try once more.
    Retry,
    /// The body is not JSON: the parser's message and the body's first 160
    /// characters.
    InvalidJson { error: String, prefix: String },
    /// The search is over with this report or error.
    Done(Result<String, String>),
}

pub open spec fn query_arg(args: JsonValue) -> Seq<char> {
    match get_key(args, "query"@) {
        Some(JsonValue::Str(s, _)) => trim(s@),
        _ => Seq::empty(),
    }
}

pub open spec fn count_arg(args: JsonValue) -> Option<u64> {
    match get_key(args, "count"@) {
        Some(v) => json_u64(v),
        None => None,
    }
}

impl WebSearchTool {
    /// The query (trimmed, required) and the result count of a call; the
    /// configured provider must be OpenRouter.
    pub fn search_request(&self, args: &JsonValue) -> (r: Result<(String, usize), SearchRefusal>)
        ensures
            query_arg(*args).len() == 0 ==> (r matches Err(SearchRefusal::Failed(t)) && failed(
                t,
                "Missing required argument: query"@,
            )),
            query_arg(*args).len() > 0 && lower(trim(self.config.provider@)) != "openrouter"@ ==> (r matches Err(SearchRefusal::Error(m))
                && m@ == "web_search provider '"@ + lower(trim(self.config.provider@))
                + "' is unsupported; expected 'openrouter'"@),
            query_arg(*args).len() > 0 && lower(trim(self.config.provider@)) == "openrouter"@ ==> (r matches Ok((q, c))
                && q@ == query_arg(*args) && c == self.resolve_count_spec(count_arg(*args))),
    {
        let q = match args.get("query") {
            Some(JsonValue::Str(s, _)) => trim_str(s.as_str()),
            _ => String::new(),
        };
        if q.as_str().is_empty() {
            return Err(
                SearchRefusal::Failed(
                    ToolResult {
                        success: false,
                        output: String::new(),
                        error: Some(String::from_str("Missing required argument: query")),
                    },
                ),
            );
        }
        match self.config.resolved_provider_kind() {
            Err(e) => return Err(SearchRefusal::Error(e.message)),
            Ok(_) => {},
        }
        let requested = match args.get("count") {
            Some(v) => v.as_u64(),
            None => None,
        };
        Ok((q, self.resolve_count(requested)))
    }

    /// The request for a search: key and model from the configuration, the
    /// plugin limit (as configured, at most `count`) and its prompt.
    pub fn search_plan(&self, query: &str, count: usize, env: &Env) -> (r: Result<SearchPlan, String>)
        ensures
            ({
                let cfg = self.config.providers.openrouter;
                match cfg.resolve_api_key_spec(*env) {
                    Err(e) => r matches Err(m) && m@ == e,
                    Ok(key) => match nonblank(cfg.model) {
                        None => r matches Err(m) && m@ == "openrouter web_search model cannot be empty"@,
                        Some(model) => r matches Ok(p) && {
                            &&& p.endpoint@ == "https://openrouter.ai/api/v1/chat/completions"@
                            &&& p.api_key@ == key
                            &&& p.model@ == model
                            &&& p.query@ == query@
                            &&& p.plugin_max_results == match cfg.plugin_max_results {
                                Some(v) => if clamp_usize(v, 1, 10) <= count {
                                    clamp_usize(v, 1, 10)
                                } else {
                                    count
                                },
                                None => count,
                            }
                            &&& opt_view(p.search_prompt) == nonblank(cfg.plugin_search_prompt)
                        },
                    },
                }
            }),
    {
        let cfg = &self.config.providers.openrouter;
        let api_key = match cfg.resolve_api_key(env) {
            Ok(k) => k,
            Err(e) => return Err(e.message),
        };
        let model = match cfg.resolve_model() {
            Ok(m) => m,
            Err(e) => return Err(e.message),
        };
        let plugin_max_results = match cfg.resolved_plugin_max_results() {
            Some(v) => if v <= count {
                v
            } else {
                count
            },
            None => count,
        };
        let mut endpoint = String::from_str(OPENROUTER_API_BASE);
        endpoint.append("/chat/completions");
        proof {
            reveal_strlit("https://openrouter.ai/api/v1");
            reveal_strlit("/chat/completions");
            reveal_strlit("https://openrouter.ai/api/v1/chat/completions");
            assert(endpoint@ =~= "https://openrouter.ai/api/v1/chat/completions"@);
        }
        Ok(
            SearchPlan {
                endpoint,
                api_key,
                model,
                query: String::from_str(query),
                plugin_max_results,
                search_prompt: cfg.resolved_plugin_search_prompt(),
            },
        )
    }

    /// What to do with the response to attempt `attempt` (from 1): a
    /// failing status is retried when it is 429 or a server error and an
    /// attempt is left, an empty body is retried while an attempt is left,
    /// and a JSON body gives the report.
    pub fn search_response(
        attempt: usize,
        status_code: u16,
        status: &str,
        body: &str,
        query: &str,
        model: &str,
    ) -> (r: SearchStep)
        ensures
            !(200 <= status_code <= 299) ==> if attempt < MAX_SEARCH_ATTEMPTS && crate::web_fetch::retry_status(
                status_code,
            ) {
                r is Retry
            } else {
                r matches SearchStep::Done(Err(m)) && m@ == "openrouter search failed with status "@
                    + status@ + ": "@ + body@
            },
            200 <= status_code <= 299 && trim(body@).len() == 0 ==> if attempt < MAX_SEARCH_ATTEMPTS {
                r is Retry
            } else {
                r matches SearchStep::Done(Err(m)) && m@
                    == "openrouter search returned an empty body; consider increasing web_search.timeout_secs"@
            },
            200 <= status_code <= 299 && trim(body@).len() > 0 ==> match json_parse(trim(body@)) {
                Err(e) => r matches SearchStep::InvalidJson { error, prefix } && error@ == e && prefix@
                    == trim(body@).take(if trim(body@).len() < 160 {
                    trim(body@).len() as int
                } else {
                    160
                }),
                Ok(v) => r matches SearchStep::Done(res) && match res {
                    Ok(s) => search_report(v, query@, model@) == Ok::<Seq<char>, Seq<char>>(s@),
                    Err(e) => search_report(v, query@, model@) == Err::<Seq<char>, Seq<char>>(e@),
                },
            },
    {
        if !(200 <= status_code && status_code <= 299) {
            if attempt < MAX_SEARCH_ATTEMPTS && crate::web_fetch::WebFetchTool::should_retry_status(status_code) {
                return SearchStep::Retry;
            }
            let mut m = String::from_str("openrouter search failed with status ");
            m.append(status);
            m.append(": ");
            m.append(body);
            return SearchStep::Done(Err(m));
        }
        let t = trim_str(body);
        if t.as_str().is_empty() {
            if attempt < MAX_SEARCH_ATTEMPTS {
                return SearchStep::Retry;
            }
            return SearchStep::Done(
                Err(
                    String::from_str(
                        "openrouter search returned an empty body; consider increasing web_search.timeout_secs",
                    ),
                ),
            );
        }
        match parse_json(t.as_str()) {
            Err(e) => {
                let (prefix, _) = crate::web_fetch::WebFetchTool::truncate_chars(t.as_str(), 160);
                SearchStep::InvalidJson { error: e, prefix }
            },
            Ok(v) => SearchStep::Done(Self::format_openrouter_results(&v, query, model)),
        }
    }
}

} // verus!

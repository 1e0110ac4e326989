use vstd::prelude::*;

verus! {

/// The parts of a parsed URL that the library reads.
pub struct UrlParts {
    /// Lower-case scheme, without `:`.
    pub scheme: String,
    /// Host as it is serialized, when the URL has one.
    pub host: Option<String>,
    /// The port, when it is given and is not the scheme's default.
    pub port: Option<u16>,
    /// The path, starting with `/` for URLs with a host.
    pub path: String,
    /// The query's name/value pairs, form-decoded, in order.
    pub query_pairs: Vec<(String, String)>,
}

pub open spec fn pair_views(s: Seq<(String, String)>) -> Seq<(Seq<char>, Seq<char>)> {
    s.map_values(|p: (String, String)| (p.0@, p.1@))
}

/// `UrlParts` as plain values.
pub open spec fn parts_view(p: UrlParts) -> (
    Seq<char>,
    Option<Seq<char>>,
    Option<u16>,
    Seq<char>,
    Seq<(Seq<char>, Seq<char>)>,
) {
    (
        p.scheme@,
        match p.host {
            Some(h) => Some(h@),
            None => None,
        },
        p.port,
        p.path@,
        pair_views(p.query_pairs@),
    )
}

pub open spec fn res_parts_view(o: Result<UrlParts, String>) -> Result<
    (Seq<char>, Option<Seq<char>>, Option<u16>, Seq<char>, Seq<(Seq<char>, Seq<char>)>),
    Seq<char>,
> {
    match o {
        Ok(p) => Ok(parts_view(p)),
        Err(e) => Err(e@),
    }
}

/// What `url::Url::parse` makes of a text: its scheme, host, port, path
/// and decoded query pairs, or the `Display` text of the parse error when
/// the text is not a URL.
pub uninterp spec fn url_parse(text: Seq<char>) -> Result<
    (Seq<char>, Option<Seq<char>>, Option<u16>, Seq<char>, Seq<(Seq<char>, Seq<char>)>),
    Seq<char>,
>;

/// Calls `url::Url::parse` and reads the parsed URL's `scheme()`,
/// `host_str()`, `port()`, `path()` and `query_pairs()`, or the error's
/// `Display` text. The
/// contract names the result only: URL parsing follows the WHATWG URL
/// standard, which is not restated here.
#[verifier::external_body]
pub(crate) fn parse_url(text: &str) -> (r: Result<UrlParts, String>)
    ensures
        res_parts_view(r) == url_parse(text@),
{
    url::Url::parse(text).map_err(|e| e.to_string()).map(
        |u| UrlParts {
            scheme: u.scheme().to_string(),
            host: u.host_str().map(|h| h.to_string()),
            port: u.port(),
            path: u.path().to_string(),
            query_pairs: u.query_pairs().map(|(k, v)| (k.into_owned(), v.into_owned())).collect(),
        },
    )
}

} // verus!

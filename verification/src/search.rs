//! Web search, page reading and plain HTTP requests for the assistant: which
//! endpoint each provider is asked, with which parameters, and how its answer
//! reads to the model. Sending the requests and reading the JSON replies is
//! left to the caller, which hands over the fields found in them.

use vstd::prelude::*;
use vstd::string::StringExecFns;
use crate::text::{chars_to_string, decimal, eq_str, opt_string_view, str_to_chars, trim, trimmed};
use crate::tools::{opt_str_view, json_parses, json_string_field};
use crate::proxy::{spec_parse_unsigned, parse_unsigned};

verus! {

/// What the model reads when a search found nothing.
pub const NO_RESULTS: &'static str = "No results found.";

/// Most results shown of one search.
pub const MAX_RESULTS: usize = 10;

/// Most extra snippets shown of one result.
pub const MAX_EXTRA_SNIPPETS: usize = 3;

/// Most characters of an error body quoted in a message.
pub const ERROR_SNIPPET_CHARS: usize = 300;

/// One search result, as the provider's reply gave it: each field absent
/// when the reply had no string there.
pub struct SearchHit {
    pub title: Option<String>,
    pub url: Option<String>,
    /// The description, snippet or content shown under the title.
    pub text: Option<String>,
    /// The extra snippets, each absent when it was no string.
    pub extras: Vec<Option<String>>,
}

/// A search result as plain values.
#[verifier::ext_equal]
pub struct SearchHitView {
    pub title: Option<Seq<char>>,
    pub url: Option<Seq<char>>,
    pub text: Option<Seq<char>>,
    pub extras: Seq<Option<Seq<char>>>,
}

impl View for SearchHit {
    type V = SearchHitView;

    open spec fn view(&self) -> SearchHitView {
        SearchHitView {
            title: opt_string_view(self.title),
            url: opt_string_view(self.url),
            text: opt_string_view(self.text),
            extras: self.extras@.map_values(|e: Option<String>| opt_string_view(e)),
        }
    }
}

/// The first `n` of `s` (all of them when there are fewer).
pub open spec fn first_n<A>(s: Seq<A>, n: nat) -> Seq<A> {
    if s.len() <= n {
        s
    } else {
        s.take(n as int)
    }
}

/// `s`, or `d` when it is absent.
pub open spec fn or_default(s: Option<Seq<char>>, d: Seq<char>) -> Seq<char> {
    match s {
        Some(v) => v,
        None => d,
    }
}

/// The quoted lines of the extra snippets that are strings.
pub open spec fn extra_lines(extras: Seq<Option<Seq<char>>>) -> Seq<char>
    decreases extras.len(),
{
    if extras.len() == 0 {
        Seq::empty()
    } else {
        extra_lines(extras.drop_last()) + match extras.last() {
            Some(s) => "  > "@ + s + "\n"@,
            None => Seq::empty(),
        }
    }
}

/// One result as the model reads it: the title in bold (a placeholder when
/// it has none), the URL in angle brackets, the text on the next line, then
/// at most three extra snippets.
pub open spec fn hit_entry(h: SearchHitView) -> Seq<char> {
    "- **"@ + or_default(h.title, "(no title)"@) + "** <"@ + or_default(h.url, Seq::empty())
        + ">\n  "@ + or_default(h.text, Seq::empty()) + "\n"@ + extra_lines(
        first_n(h.extras, MAX_EXTRA_SNIPPETS as nat),
    )
}

/// The entries of `hits`, one after the other.
pub open spec fn hit_entries(hits: Seq<SearchHitView>) -> Seq<char>
    decreases hits.len(),
{
    if hits.len() == 0 {
        Seq::empty()
    } else {
        hit_entries(hits.drop_last()) + hit_entry(hits.last())
    }
}

/// The results of a search as the model reads them: the first ten entries,
/// or a note that there were none.
pub open spec fn spec_search_results_text(hits: Seq<SearchHitView>) -> Seq<char> {
    if hits.len() == 0 {
        NO_RESULTS@
    } else {
        hit_entries(first_n(hits, MAX_RESULTS as nat))
    }
}

/// Appends the entry of `h` to `out`.
fn push_hit_entry(out: &mut String, h: &SearchHit)
    ensures
        final(out)@ == old(out)@ + hit_entry(h@),
{
    let ghost start = out@;
    out.append("- **");
    match &h.title {
        Some(t) => out.append(t.as_str()),
        None => out.append("(no title)"),
    }
    out.append("** <");
    match &h.url {
        Some(u) => out.append(u.as_str()),
        None => {},
    }
    out.append(">\n  ");
    match &h.text {
        Some(t) => out.append(t.as_str()),
        None => {},
    }
    out.append("\n");
    let ghost head = out@;
    assert(head =~= start + ("- **"@ + or_default(h@.title, "(no title)"@) + "** <"@ + or_default(
        h@.url,
        Seq::empty(),
    ) + ">\n  "@ + or_default(h@.text, Seq::empty()) + "\n"@));
    let ghost ev = h@.extras;
    let n = if h.extras.len() < MAX_EXTRA_SNIPPETS {
        h.extras.len()
    } else {
        MAX_EXTRA_SNIPPETS
    };
    assert(first_n(ev, MAX_EXTRA_SNIPPETS as nat) =~= ev.take(n as int));
    let mut j: usize = 0;
    while j < n
        invariant
            j <= n,
            n <= h.extras@.len(),
            ev == h.extras@.map_values(|e: Option<String>| opt_string_view(e)),
            out@ == head + extra_lines(ev.take(j as int)),
        decreases n - j,
    {
        assert(ev.take(j + 1).drop_last() =~= ev.take(j as int));
        assert(ev.take(j + 1).last() == opt_string_view(h.extras@[j as int]));
        match &h.extras[j] {
            Some(s) => {
                out.append("  > ");
                out.append(s.as_str());
                out.append("\n");
            },
            None => {},
        }
        j = j + 1;
    }
}

/// Appends the entries of the first `n` of `hits` to `out`.
fn push_hit_entries(out: &mut String, hits: &[SearchHit], n: usize)
    requires
        n <= hits@.len(),
    ensures
        final(out)@ == old(out)@ + hit_entries(hits@.map_values(|h: SearchHit| h@).take(n as int)),
{
    let ghost hv = hits@.map_values(|h: SearchHit| h@);
    let ghost start = out@;
    let mut i: usize = 0;
    while i < n
        invariant
            i <= n,
            n <= hits@.len(),
            hv == hits@.map_values(|h: SearchHit| h@),
            out@ == start + hit_entries(hv.take(i as int)),
        decreases n - i,
    {
        assert(hv.take(i + 1).drop_last() =~= hv.take(i as int));
        assert(hv.take(i + 1).last() == hits@[i as int]@);
        push_hit_entry(out, &hits[i]);
        i = i + 1;
    }
}

/// The results of a Brave or PipeLLM search as the model reads them.
pub fn search_results_text(hits: &[SearchHit]) -> (text: String)
    ensures
        text@ == spec_search_results_text(hits@.map_values(|h: SearchHit| h@)),
{
    if hits.len() == 0 {
        return String::from_str(NO_RESULTS);
    }
    let n = if hits.len() < MAX_RESULTS {
        hits.len()
    } else {
        MAX_RESULTS
    };
    let ghost hv = hits@.map_values(|h: SearchHit| h@);
    assert(first_n(hv, MAX_RESULTS as nat) =~= hv.take(n as int));
    let mut out = String::new();
    push_hit_entries(&mut out, hits, n);
    out
}

/// The results of a Tavily search as the model reads them: its direct
/// answer first, when it gave a non-empty one, then the first ten entries;
/// a note that there were none when there is neither.
pub open spec fn spec_tavily_results_text(answer: Option<Seq<char>>, hits: Seq<SearchHitView>) -> Seq<char> {
    let head = match answer {
        Some(a) => if a.len() > 0 {
            "**Answer:** "@ + a + "\n\n"@
        } else {
            Seq::empty()
        },
        None => Seq::empty(),
    };
    if hits.len() == 0 && head.len() == 0 {
        NO_RESULTS@
    } else {
        head + hit_entries(first_n(hits, MAX_RESULTS as nat))
    }
}

/// The results of a Tavily search, with its direct answer.
pub fn tavily_results_text(answer: Option<&str>, hits: &[SearchHit]) -> (text: String)
    ensures
        text@ == spec_tavily_results_text(opt_str_view(answer), hits@.map_values(|h: SearchHit| h@)),
{
    let mut out = String::new();
    match answer {
        Some(a) => {
            if !a.is_empty() {
                out.append("**Answer:** ");
                out.append(a);
                out.append("\n\n");
            }
        },
        None => {},
    }
    if hits.len() == 0 && out.as_str().is_empty() {
        return String::from_str(NO_RESULTS);
    }
    let n = if hits.len() < MAX_RESULTS {
        hits.len()
    } else {
        MAX_RESULTS
    };
    let ghost hv = hits@.map_values(|h: SearchHit| h@);
    assert(first_n(hv, MAX_RESULTS as nat) =~= hv.take(n as int));
    push_hit_entries(&mut out, hits, n);
    out
}


// ---------------------------------------------------------------------------
// Requests to the search providers.
// ---------------------------------------------------------------------------

/// Whether the optional argument `arg` is `lit`.
pub open spec fn arg_is(arg: Option<Seq<char>>, lit: Seq<char>) -> bool {
    arg == Some(lit)
}

fn opt_eq(arg: Option<&str>, lit: &str) -> (eq: bool)
    ensures
        eq == arg_is(opt_str_view(arg), lit@),
{
    match arg {
        Some(a) => {
            let c = str_to_chars(a);
            eq_str(c.as_slice(), lit)
        },
        None => false,
    }
}

/// The Brave endpoint for a search of `kind`: the news search for news,
/// the web search otherwise.
pub open spec fn spec_brave_endpoint(kind: Option<Seq<char>>) -> Seq<char> {
    if arg_is(kind, "news"@) {
        "https://api.search.brave.com/res/v1/news/search"@
    } else {
        "https://api.search.brave.com/res/v1/web/search"@
    }
}

/// The Brave endpoint for a search of `kind`.
pub fn brave_endpoint(kind: Option<&str>) -> (endpoint: &'static str)
    ensures
        endpoint@ == spec_brave_endpoint(opt_str_view(kind)),
{
    if opt_eq(kind, "news") {
        "https://api.search.brave.com/res/v1/news/search"
    } else {
        "https://api.search.brave.com/res/v1/web/search"
    }
}

/// A query parameter or header: a name and a value.
pub struct Param {
    pub name: String,
    pub value: String,
}

/// The parameters as pairs of plain strings.
pub open spec fn params_view(ps: Seq<Param>) -> Seq<(Seq<char>, Seq<char>)> {
    ps.map_values(|p: Param| (p.name@, p.value@))
}

fn param(name: &str, value: &str) -> (p: Param)
    ensures
        p.name@ == name@,
        p.value@ == value@,
{
    Param { name: String::from_str(name), value: String::from_str(value) }
}

/// The query of a Brave search: the query, ten results with their extra
/// snippets, and the freshness when one was asked for.
pub open spec fn spec_brave_query(query: Seq<char>, freshness: Option<Seq<char>>) -> Seq<(Seq<char>, Seq<char>)> {
    let base = seq![("q"@, query), ("count"@, "10"@), ("extra_snippets"@, "true"@)];
    match freshness {
        Some(f) => base.push(("freshness"@, f)),
        None => base,
    }
}

/// The query parameters of a Brave search.
pub fn brave_query(query: &str, freshness: Option<&str>) -> (params: Vec<Param>)
    ensures
        params_view(params@) == spec_brave_query(query@, opt_str_view(freshness)),
{
    let mut out: Vec<Param> = Vec::new();
    out.push(param("q", query));
    out.push(param("count", "10"));
    out.push(param("extra_snippets", "true"));
    match freshness {
        Some(f) => out.push(param("freshness", f)),
        None => {},
    }
    assert(params_view(out@) =~= spec_brave_query(query@, opt_str_view(freshness)));
    out
}

/// The bases of the PipeLLM API, in the order they are tried.
pub open spec fn pipellm_bases() -> Seq<Seq<char>> {
    seq!["https://api.pipellm.ai"@, "https://api.pipellm.com"@]
}

/// The PipeLLM API bases, in the order they are tried.
pub fn pipellm_base_urls() -> (bases: Vec<String>)
    ensures
        bases@.map_values(|b: String| b@) == pipellm_bases(),
{
    let mut out: Vec<String> = Vec::new();
    out.push(String::from_str("https://api.pipellm.ai"));
    out.push(String::from_str("https://api.pipellm.com"));
    assert(out@.map_values(|b: String| b@) =~= pipellm_bases());
    out
}

/// The PipeLLM search path for `kind`: news search, the full search for
/// "deep", the simple search otherwise.
pub open spec fn spec_pipellm_path(kind: Option<Seq<char>>) -> Seq<char> {
    if arg_is(kind, "news"@) {
        "v1/websearch/search-news"@
    } else if arg_is(kind, "deep"@) {
        "v1/websearch/search"@
    } else {
        "v1/websearch/simple-search"@
    }
}

/// The URL of a PipeLLM search of `kind` at `base`.
pub fn pipellm_search_url(base: &str, kind: Option<&str>) -> (url: String)
    ensures
        url@ == base@ + "/"@ + spec_pipellm_path(opt_str_view(kind)),
{
    let path = if opt_eq(kind, "news") {
        "v1/websearch/search-news"
    } else if opt_eq(kind, "deep") {
        "v1/websearch/search"
    } else {
        "v1/websearch/simple-search"
    };
    let mut out = String::from_str(base);
    out.append("/");
    out.append(path);
    out
}

/// The URL of the PipeLLM page reader at `base`.
pub fn pipellm_reader_url(base: &str) -> (url: String)
    ensures
        url@ == base@ + "/v1/websearch/reader"@,
{
    let mut out = String::from_str(base);
    out.append("/v1/websearch/reader");
    out
}

/// The fields of a PipeLLM result as a search hit: the link, else the URL;
/// the snippet, else the content.
pub fn pipellm_hit(
    title: Option<String>,
    link: Option<String>,
    url: Option<String>,
    snippet: Option<String>,
    content: Option<String>,
) -> (hit: SearchHit)
    ensures
        hit@.title == opt_string_view(title),
        hit@.url == (if link is Some {
            opt_string_view(link)
        } else {
            opt_string_view(url)
        }),
        hit@.text == (if snippet is Some {
            opt_string_view(snippet)
        } else {
            opt_string_view(content)
        }),
        hit@.extras.len() == 0,
{
    let u = match link {
        Some(l) => Some(l),
        None => url,
    };
    let t = match snippet {
        Some(s) => Some(s),
        None => content,
    };
    SearchHit { title, url: u, text: t, extras: Vec::new() }
}

/// What a Tavily search asks besides the query: ten results and a direct
/// answer always; the topic, depth and age limit when given.
pub struct TavilyOptions {
    /// "news" or "finance", when the search is of that kind.
    pub topic: Option<String>,
    pub search_depth: Option<String>,
    /// How many days back results may be.
    pub days: Option<u32>,
}

/// The age limit in days for a freshness: a day, a week, a month (31
/// days), a year, or the number given; a week when it is none of these.
pub open spec fn spec_tavily_days(freshness: Seq<char>) -> nat {
    if freshness == "pd"@ {
        1
    } else if freshness == "pw"@ {
        7
    } else if freshness == "pm"@ {
        31
    } else if freshness == "py"@ {
        365
    } else {
        match spec_parse_unsigned(freshness, u32::MAX as nat) {
            Some(d) => d,
            None => 7,
        }
    }
}

/// The age limit in days for a freshness.
pub fn tavily_days(freshness: &str) -> (days: u32)
    ensures
        days as nat == spec_tavily_days(freshness@),
{
    let c = str_to_chars(freshness);
    if eq_str(c.as_slice(), "pd") {
        1
    } else if eq_str(c.as_slice(), "pw") {
        7
    } else if eq_str(c.as_slice(), "pm") {
        31
    } else if eq_str(c.as_slice(), "py") {
        365
    } else {
        match parse_unsigned(c.as_slice(), u32::MAX) {
            Some(d) => d,
            None => 7,
        }
    }
}

/// The options of a Tavily search of `kind`, `freshness` and `depth`.
pub fn tavily_options(kind: Option<&str>, freshness: Option<&str>, depth: Option<&str>) -> (options: TavilyOptions)
    ensures
        opt_string_view(options.topic) == (if arg_is(opt_str_view(kind), "news"@) || arg_is(
            opt_str_view(kind),
            "finance"@,
        ) {
            opt_str_view(kind)
        } else {
            None
        }),
        opt_string_view(options.search_depth) == opt_str_view(depth),
        options.days matches Some(d) ==> freshness matches Some(f) && d as nat == spec_tavily_days(f@),
        options.days is None <==> freshness is None,
{
    let topic = if opt_eq(kind, "news") || opt_eq(kind, "finance") {
        match kind {
            Some(k) => Some(String::from_str(k)),
            None => None,
        }
    } else {
        None
    };
    let search_depth = match depth {
        Some(d) => Some(String::from_str(d)),
        None => None,
    };
    let days = match freshness {
        Some(f) => Some(tavily_days(f)),
        None => None,
    };
    TavilyOptions { topic, search_depth, days }
}

/// The first characters of an error body quoted in a message.
pub open spec fn error_snippet(body: Seq<char>) -> Seq<char> {
    first_n(body, ERROR_SNIPPET_CHARS as nat)
}

fn push_error_snippet(out: &mut String, body: &str)
    ensures
        final(out)@ == old(out)@ + error_snippet(body@),
{
    let c = str_to_chars(body);
    let n = if c.len() < ERROR_SNIPPET_CHARS {
        c.len()
    } else {
        ERROR_SNIPPET_CHARS
    };
    let head = crate::text::sub_vec(c.as_slice(), 0, n);
    let s = chars_to_string(head.as_slice());
    assert(s@ =~= error_snippet(body@));
    out.append(s.as_str());
}

/// The error of a provider that answered with a failure `status`: the
/// provider, the status and the start of the body.
pub fn provider_failure(provider: &str, status: &str, body: &str) -> (message: String)
    ensures
        message@ == provider@ + " returned "@ + status@ + ": "@ + error_snippet(body@),
{
    let mut out = String::from_str(provider);
    out.append(" returned ");
    out.append(status);
    out.append(": ");
    push_error_snippet(&mut out, body);
    out
}

/// The failure of one of the PipeLLM bases: the status, the base and the
/// start of the body.
pub fn mirror_failure(status: &str, base: &str, body: &str) -> (message: String)
    ensures
        message@ == status@ + " from "@ + base@ + ": "@ + error_snippet(body@),
{
    let mut out = String::from_str(status);
    out.append(" from ");
    out.append(base);
    out.append(": ");
    push_error_snippet(&mut out, body);
    out
}

// ---------------------------------------------------------------------------
// Reading pages.
// ---------------------------------------------------------------------------

/// The page at `url` through defuddle.md, tried first.
pub fn defuddle_url(url: &str) -> (reader: String)
    ensures
        reader@ == "https://defuddle.md/"@ + url@,
{
    let mut out = String::from_str("https://defuddle.md/");
    out.append(url);
    out
}

/// The page at `url` through r.jina.ai, tried second.
pub fn jina_url(url: &str) -> (reader: String)
    ensures
        reader@ == "https://r.jina.ai/"@ + url@,
{
    let mut out = String::from_str("https://r.jina.ai/");
    out.append(url);
    out
}

/// Whether a reader's body is worth returning: not blank.
pub fn body_has_text(body: &str) -> (has: bool)
    ensures
        has == (trim(body@).len() > 0),
{
    let c = str_to_chars(body);
    let t = trimmed(c.as_slice());
    t.len() > 0
}

/// How a page is read for a provider.
#[derive(Debug, Clone, Copy, PartialEq, Eq, Structural)]
pub enum PageReader {
    /// The PipeLLM reader, then the generic readers when both bases fail.
    Pipellm,
    /// Tavily extract, then the generic readers when it fails or is empty.
    Tavily,
    /// defuddle.md, then r.jina.ai.
    Generic,
}

/// The reader used for the configured search `provider`.
pub fn page_reader(provider: &str) -> (reader: PageReader)
    ensures
        reader == (if provider@ == "pipellm"@ {
            PageReader::Pipellm
        } else if provider@ == "tavily"@ {
            PageReader::Tavily
        } else {
            PageReader::Generic
        }),
{
    let c = str_to_chars(provider);
    if eq_str(c.as_slice(), "pipellm") {
        PageReader::Pipellm
    } else if eq_str(c.as_slice(), "tavily") {
        PageReader::Tavily
    } else {
        PageReader::Generic
    }
}

/// What the PipeLLM reader's reply gives: its `content`, else its `text`,
/// else the reply itself when it is a string; a note when that is blank.
pub open spec fn spec_pipellm_page(content: Option<Seq<char>>, text: Option<Seq<char>>, whole: Option<Seq<char>>) -> Seq<char> {
    let t = match content {
        Some(c) => c,
        None => match text {
            Some(x) => x,
            None => or_default(whole, Seq::empty()),
        },
    };
    if trim(t).len() > 0 {
        t
    } else {
        "Page returned empty content."@
    }
}

/// The page text of a PipeLLM reader reply.
pub fn pipellm_page(content: Option<&str>, text: Option<&str>, whole: Option<&str>) -> (page: String)
    ensures
        page@ == spec_pipellm_page(opt_str_view(content), opt_str_view(text), opt_str_view(whole)),
{
    proof {
        reveal_strlit("");
    }
    let t = match content {
        Some(c) => c,
        None => match text {
            Some(x) => x,
            None => match whole {
                Some(w) => w,
                None => "",
            },
        },
    };
    if body_has_text(t) {
        String::from_str(t)
    } else {
        String::from_str("Page returned empty content.")
    }
}

/// What a Tavily extract reply gives from its first result: the raw
/// content, else the content; nothing (so the generic readers are tried)
/// when that is blank.
pub open spec fn spec_tavily_page(raw_content: Option<Seq<char>>, content: Option<Seq<char>>) -> Option<Seq<char>> {
    let t = match raw_content {
        Some(r) => r,
        None => or_default(content, Seq::empty()),
    };
    if trim(t).len() > 0 {
        Some(t)
    } else {
        None
    }
}

/// The page text of a Tavily extract reply, if it has one.
pub fn tavily_page(raw_content: Option<&str>, content: Option<&str>) -> (page: Option<String>)
    ensures
        opt_string_view(page) == spec_tavily_page(opt_str_view(raw_content), opt_str_view(content)),
{
    proof {
        reveal_strlit("");
    }
    let t = match raw_content {
        Some(r) => r,
        None => match content {
            Some(c) => c,
            None => "",
        },
    };
    if body_has_text(t) {
        Some(String::from_str(t))
    } else {
        None
    }
}


// ---------------------------------------------------------------------------
// Plain HTTP requests.
// ---------------------------------------------------------------------------

/// The methods `http_request` sends.
#[derive(Debug, Clone, Copy, PartialEq, Eq, Structural)]
pub enum HttpMethod {
    Get,
    Post,
    Put,
    Patch,
    Delete,
}

/// The method named `name` (upper case, as the tool takes it).
pub open spec fn spec_http_method(name: Seq<char>) -> Option<HttpMethod> {
    if name == "GET"@ {
        Some(HttpMethod::Get)
    } else if name == "POST"@ {
        Some(HttpMethod::Post)
    } else if name == "PUT"@ {
        Some(HttpMethod::Put)
    } else if name == "PATCH"@ {
        Some(HttpMethod::Patch)
    } else if name == "DELETE"@ {
        Some(HttpMethod::Delete)
    } else {
        None
    }
}

/// The method named `name`, or the error that it is not supported.
pub fn http_method(name: &str) -> (method: Result<HttpMethod, String>)
    ensures
        method matches Ok(m) ==> spec_http_method(name@) == Some(m),
        method is Err <==> spec_http_method(name@) is None,
        method matches Err(e) ==> e@ == "unsupported HTTP method: "@ + name@,
{
    let c = str_to_chars(name);
    if eq_str(c.as_slice(), "GET") {
        Ok(HttpMethod::Get)
    } else if eq_str(c.as_slice(), "POST") {
        Ok(HttpMethod::Post)
    } else if eq_str(c.as_slice(), "PUT") {
        Ok(HttpMethod::Put)
    } else if eq_str(c.as_slice(), "PATCH") {
        Ok(HttpMethod::Patch)
    } else if eq_str(c.as_slice(), "DELETE") {
        Ok(HttpMethod::Delete)
    } else {
        let mut e = String::from_str("unsupported HTTP method: ");
        e.append(name);
        Err(e)
    }
}

/// A name with a value that may be absent (a JSON value that was no string).
pub struct MaybeParam {
    pub name: String,
    pub value: Option<String>,
}

/// The pairs whose value is present, in order.
pub open spec fn present_params(ps: Seq<(Seq<char>, Option<Seq<char>>)>) -> Seq<(Seq<char>, Seq<char>)>
    decreases ps.len(),
{
    if ps.len() == 0 {
        Seq::empty()
    } else {
        let rest = present_params(ps.drop_last());
        match ps.last().1 {
            Some(v) => rest.push((ps.last().0, v)),
            None => rest,
        }
    }
}

/// The query parameters or headers of a request: those with a string value.
pub fn string_params(ps: &[MaybeParam]) -> (out: Vec<Param>)
    ensures
        params_view(out@) == present_params(ps@.map_values(|p: MaybeParam| (p.name@, opt_string_view(p.value)))),
{
    let ghost pv = ps@.map_values(|p: MaybeParam| (p.name@, opt_string_view(p.value)));
    let mut out: Vec<Param> = Vec::new();
    let mut i: usize = 0;
    while i < ps.len()
        invariant
            i <= ps@.len(),
            pv == ps@.map_values(|p: MaybeParam| (p.name@, opt_string_view(p.value))),
            params_view(out@) == present_params(pv.take(i as int)),
        decreases ps@.len() - i,
    {
        assert(pv.take(i + 1).drop_last() =~= pv.take(i as int));
        assert(pv.take(i + 1).last() == pv[i as int]);
        match &ps[i].value {
            Some(v) => {
                let ghost before = out@;
                out.push(param(ps[i].name.as_str(), v.as_str()));
                assert(params_view(out@) =~= params_view(before).push((ps@[i as int].name@, v@)));
            },
            None => {},
        }
        i = i + 1;
    }
    assert(pv.take(ps@.len() as int) =~= pv);
    out
}

/// `c` in lower case, for ASCII letters (as `to_ascii_lowercase`).
pub open spec fn ascii_lower(c: char) -> char {
    if 'A' <= c && c <= 'Z' {
        ((c as u32) + 32) as char
    } else {
        c
    }
}

/// Whether a response header is shown to the model: the content type and
/// length, the request id and the remaining rate limit, in any case.
pub open spec fn spec_is_reported_header(name: Seq<char>) -> bool {
    let l = name.map_values(|c: char| ascii_lower(c));
    l == "content-type"@ || l == "content-length"@ || l == "x-request-id"@ || l
        == "x-ratelimit-remaining"@
}

/// Whether the response header `name` is shown to the model.
pub fn is_reported_header(name: &str) -> (shown: bool)
    ensures
        shown == spec_is_reported_header(name@),
{
    let c = str_to_chars(name);
    let mut l: Vec<char> = Vec::new();
    let mut i: usize = 0;
    while i < c.len()
        invariant
            i <= c@.len(),
            l@ == c@.take(i as int).map_values(|x: char| ascii_lower(x)),
        decreases c@.len() - i,
    {
        let x = c[i];
        let y = if 'A' <= x && x <= 'Z' {
            ((x as u32 + 32) as u8) as char
        } else {
            x
        };
        assert(y == ascii_lower(c@[i as int])) by {
            if 'A' <= x && x <= 'Z' {
                assert((x as u32 + 32) < 128);
            }
        };
        l.push(y);
        assert(c@.take(i + 1).map_values(|x: char| ascii_lower(x)) =~= c@.take(i as int).map_values(
            |x: char| ascii_lower(x),
        ).push(ascii_lower(c@[i as int])));
        i = i + 1;
    }
    assert(c@.take(c@.len() as int) =~= c@);
    eq_str(l.as_slice(), "content-type") || eq_str(l.as_slice(), "content-length") || eq_str(
        l.as_slice(),
        "x-request-id",
    ) || eq_str(l.as_slice(), "x-ratelimit-remaining")
}

/// Whether a request body is JSON, which sends it as `application/json`.
pub fn body_is_json(body: &str) -> (json: bool)
    ensures
        json == json_parses(body@),
{
    json_string_field(body, "").is_some()
}

/// `text` pretty-printed by `serde_json` (it depends on `text` alone):
/// none when it is no JSON or cannot be printed.
pub uninterp spec fn pretty_json_of(text: Seq<char>) -> Option<Seq<char>>;

/// `serde_json::from_str::<serde_json::Value>` on `text`, then
/// `serde_json::to_string_pretty`: none when either fails. What the pretty
/// form looks like is not stated; it is named `pretty_json_of`.
#[verifier::external_body]
fn pretty_json(text: &str) -> (pretty: Option<String>)
    ensures
        opt_string_view(pretty) == pretty_json_of(text@),
        !json_parses(text@) ==> pretty is None,
{
    match serde_json::from_str::<serde_json::Value>(text) {
        Ok(v) => serde_json::to_string_pretty(&v).ok(),
        Err(_) => None,
    }
}

/// The headers joined by newlines, as `name: value` lines (`?` for a value
/// that is no text).
pub open spec fn header_lines(hs: Seq<(Seq<char>, Option<Seq<char>>)>) -> Seq<Seq<char>>
    decreases hs.len(),
{
    if hs.len() == 0 {
        Seq::empty()
    } else {
        let rest = header_lines(hs.drop_last());
        if spec_is_reported_header(hs.last().0) {
            rest.push(hs.last().0 + ": "@ + or_default(hs.last().1, "?"@))
        } else {
            rest
        }
    }
}

/// What `http_request` answers: the status line, the reported headers (a
/// line each, then a blank line; just the blank line when there are none)
/// and the body, pretty-printed when it is JSON.
pub open spec fn spec_http_response_text(
    status: nat,
    headers: Seq<(Seq<char>, Option<Seq<char>>)>,
    body: Seq<char>,
) -> Seq<char> {
    let hl = header_lines(headers);
    "HTTP "@ + decimal(status) + "\n"@ + (if hl.len() > 0 {
        crate::text::join_with(hl, "\n"@) + "\n"@
    } else {
        Seq::empty()
    }) + "\n"@ + match pretty_json_of(body) {
        Some(p) => p,
        None => body,
    }
}

/// The reply of `http_request` from the response's status, headers and
/// body.
pub fn http_response_text(status: u16, headers: &[MaybeParam], body: &str) -> (text: String)
    ensures
        text@ == spec_http_response_text(
            status as nat,
            headers@.map_values(|p: MaybeParam| (p.name@, opt_string_view(p.value))),
            body@,
        ),
{
    let ghost hv = headers@.map_values(|p: MaybeParam| (p.name@, opt_string_view(p.value)));
    let mut lines: Vec<String> = Vec::new();
    let mut i: usize = 0;
    while i < headers.len()
        invariant
            i <= headers@.len(),
            hv == headers@.map_values(|p: MaybeParam| (p.name@, opt_string_view(p.value))),
            lines@.map_values(|s: String| s@) == header_lines(hv.take(i as int)),
        decreases headers@.len() - i,
    {
        assert(hv.take(i + 1).drop_last() =~= hv.take(i as int));
        assert(hv.take(i + 1).last() == hv[i as int]);
        let h = &headers[i];
        if is_reported_header(h.name.as_str()) {
            let mut line = String::from_str(h.name.as_str());
            line.append(": ");
            match &h.value {
                Some(v) => line.append(v.as_str()),
                None => line.append("?"),
            }
            let ghost before = lines@;
            lines.push(line);
            assert(lines@.map_values(|s: String| s@) =~= before.map_values(|s: String| s@).push(
                hv[i as int].0 + ": "@ + or_default(hv[i as int].1, "?"@),
            ));
        }
        i = i + 1;
    }
    assert(hv.take(headers@.len() as int) =~= hv);
    let mut out = String::from_str("HTTP ");
    out.append(crate::text::decimal_string(status as u64).as_str());
    out.append("\n");
    if lines.len() > 0 {
        out.append(crate::text::join_strings(lines.as_slice(), "\n").as_str());
        out.append("\n");
    }
    out.append("\n");
    match pretty_json(body) {
        Some(p) => out.append(p.as_str()),
        None => out.append(body),
    }
    out
}

} // verus!

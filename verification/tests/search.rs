use kaku::search::{
    body_has_text, body_is_json, brave_endpoint, brave_query, defuddle_url, http_method,
    http_response_text, is_reported_header, jina_url, mirror_failure, page_reader, pipellm_base_urls,
    pipellm_hit, pipellm_page, pipellm_reader_url, pipellm_search_url, provider_failure,
    search_results_text, string_params, tavily_days, tavily_options, tavily_page,
    tavily_results_text, HttpMethod, MaybeParam, PageReader, SearchHit, NO_RESULTS,
};

fn hit(title: Option<&str>, url: Option<&str>, text: Option<&str>, extras: Vec<Option<&str>>) -> SearchHit {
    SearchHit {
        title: title.map(String::from),
        url: url.map(String::from),
        text: text.map(String::from),
        extras: extras.into_iter().map(|e| e.map(String::from)).collect(),
    }
}

#[test]
fn search_results_read_as_a_list() {
    assert_eq!(search_results_text(&[]), NO_RESULTS);
    let hits = vec![
        hit(Some("Rust"), Some("https://rust-lang.org"), Some("A language"), vec![Some("one"), None, Some("two"), Some("three"), Some("four")]),
        hit(None, None, None, vec![]),
    ];
    assert_eq!(
        search_results_text(&hits),
        "- **Rust** <https://rust-lang.org>\n  A language\n  > one\n  > two\n- **(no title)** <>\n  \n"
    );
    let many: Vec<SearchHit> = (0..12).map(|i| hit(Some(&format!("t{}", i)), None, None, vec![])).collect();
    let text = search_results_text(&many);
    assert_eq!(text.matches("- **").count(), 10);
    assert!(!text.contains("t10"));
}

#[test]
fn tavily_answers_come_first() {
    assert_eq!(tavily_results_text(None, &[]), NO_RESULTS);
    assert_eq!(tavily_results_text(Some(""), &[]), NO_RESULTS);
    assert_eq!(tavily_results_text(Some("42"), &[]), "**Answer:** 42\n\n");
    assert_eq!(
        tavily_results_text(Some("42"), &[hit(Some("T"), Some("u"), Some("c"), vec![])]),
        "**Answer:** 42\n\n- **T** <u>\n  c\n"
    );
}

#[test]
fn provider_requests() {
    assert_eq!(brave_endpoint(Some("news")), "https://api.search.brave.com/res/v1/news/search");
    assert_eq!(brave_endpoint(None), "https://api.search.brave.com/res/v1/web/search");
    let q = brave_query("rust", Some("pw"));
    let pairs: Vec<(String, String)> = q.into_iter().map(|p| (p.name, p.value)).collect();
    assert_eq!(
        pairs,
        vec![
            ("q".to_string(), "rust".to_string()),
            ("count".to_string(), "10".to_string()),
            ("extra_snippets".to_string(), "true".to_string()),
            ("freshness".to_string(), "pw".to_string()),
        ]
    );
    assert_eq!(pipellm_base_urls(), vec!["https://api.pipellm.ai".to_string(), "https://api.pipellm.com".to_string()]);
    assert_eq!(
        pipellm_search_url("https://api.pipellm.ai", Some("deep")),
        "https://api.pipellm.ai/v1/websearch/search"
    );
    assert_eq!(
        pipellm_search_url("https://api.pipellm.com", None),
        "https://api.pipellm.com/v1/websearch/simple-search"
    );
    assert_eq!(pipellm_reader_url("https://b"), "https://b/v1/websearch/reader");
    let h = pipellm_hit(Some("T".to_string()), None, Some("u".to_string()), None, Some("c".to_string()));
    assert_eq!(h.url.as_deref(), Some("u"));
    assert_eq!(h.text.as_deref(), Some("c"));
}

#[test]
fn tavily_options_map_freshness_to_days() {
    assert_eq!(tavily_days("pd"), 1);
    assert_eq!(tavily_days("pm"), 31);
    assert_eq!(tavily_days("14"), 14);
    assert_eq!(tavily_days("soon"), 7);
    let o = tavily_options(Some("finance"), Some("py"), Some("advanced"));
    assert_eq!(o.topic.as_deref(), Some("finance"));
    assert_eq!(o.search_depth.as_deref(), Some("advanced"));
    assert_eq!(o.days, Some(365));
    let o2 = tavily_options(Some("images"), None, None);
    assert_eq!(o2.topic, None);
    assert_eq!(o2.days, None);
}

#[test]
fn failures_quote_the_start_of_the_body() {
    let long = "x".repeat(400);
    let m = provider_failure("brave search", "429 Too Many Requests", &long);
    assert_eq!(m, format!("brave search returned 429 Too Many Requests: {}", "x".repeat(300)));
    assert_eq!(mirror_failure("500", "https://a", "oops"), "500 from https://a: oops");
}

#[test]
fn page_readers() {
    assert_eq!(defuddle_url("https://a.b/c"), "https://defuddle.md/https://a.b/c");
    assert_eq!(jina_url("https://a.b/c"), "https://r.jina.ai/https://a.b/c");
    assert!(!body_has_text(" \n"));
    assert!(body_has_text(" x "));
    assert_eq!(page_reader("pipellm"), PageReader::Pipellm);
    assert_eq!(page_reader("tavily"), PageReader::Tavily);
    assert_eq!(page_reader("brave"), PageReader::Generic);
    assert_eq!(pipellm_page(None, Some("body"), None), "body");
    assert_eq!(pipellm_page(Some(" "), Some("body"), None), "Page returned empty content.");
    assert_eq!(pipellm_page(None, None, Some("whole")), "whole");
    assert_eq!(tavily_page(None, Some("c")).as_deref(), Some("c"));
    assert_eq!(tavily_page(Some(""), Some("c")), None);
}

#[test]
fn http_requests_and_responses() {
    assert_eq!(http_method("PATCH").ok(), Some(HttpMethod::Patch));
    assert_eq!(http_method("get").err().as_deref(), Some("unsupported HTTP method: get"));
    assert!(is_reported_header("Content-Type"));
    assert!(is_reported_header("x-ratelimit-remaining"));
    assert!(!is_reported_header("Server"));
    assert!(body_is_json("{\"a\": 1}"));
    assert!(!body_is_json("a=1"));
    let params = string_params(&[
        MaybeParam { name: "a".to_string(), value: Some("1".to_string()) },
        MaybeParam { name: "b".to_string(), value: None },
    ]);
    assert_eq!(params.len(), 1);
    assert_eq!(params[0].name, "a");
    let headers = vec![
        MaybeParam { name: "content-type".to_string(), value: Some("text/plain".to_string()) },
        MaybeParam { name: "server".to_string(), value: Some("x".to_string()) },
        MaybeParam { name: "x-request-id".to_string(), value: None },
    ];
    assert_eq!(
        http_response_text(200, &headers, "hi"),
        "HTTP 200\ncontent-type: text/plain\nx-request-id: ?\n\nhi"
    );
    assert_eq!(http_response_text(404, &[], "{\"a\":1}"), "HTTP 404\n\n{\n  \"a\": 1\n}");
}

use zerobrew::api::{status_failure, ApiClient, CacheEntry, Exchange, FetchEvent, FetchStep};
use zerobrew::error::Error;

fn client() -> ApiClient {
    ApiClient::with_base_url("http://localhost".to_string()).with_cache()
}

fn entry(etag: Option<&str>, last_modified: Option<&str>, body: &str) -> CacheEntry {
    CacheEntry {
        etag: etag.map(|s| s.to_string()),
        last_modified: last_modified.map(|s| s.to_string()),
        body: body.to_string(),
    }
}

fn received(exchange: &Exchange, etag: Option<&str>, body: &str) -> (String, Option<CacheEntry>) {
    let event = FetchEvent::Received {
        etag: etag.map(|s| s.to_string()),
        last_modified: None,
        body: body.to_string(),
    };
    match exchange.on_event(event) {
        FetchStep::Use { body, store } => (body, store),
        _ => panic!("the body is not used"),
    }
}

fn failure(exchange: &Exchange, event: FetchEvent) -> Error {
    match exchange.on_event(event) {
        FetchStep::Fail(e) => e,
        _ => panic!("nothing failed"),
    }
}

fn network_message(error: Error) -> String {
    match error {
        Error::NetworkFailure { message } => message,
        _ => panic!("not a network failure"),
    }
}

#[test]
fn public_api_is_the_default() {
    assert_eq!(ApiClient::default().base_url, "https://formulae.brew.sh/api/formula");
    let exchange = ApiClient::new().get_formula("wget", None);
    assert_eq!(exchange.url, "https://formulae.brew.sh/api/formula/wget.json");
    assert!(!exchange.caching);
    assert_eq!(client().formula_url("foo"), "http://localhost/foo.json");
}

#[test]
fn missing_formula_on_not_found() {
    for exchange in [
        client().get_formula("nonexistent", None),
        client().get_formula_json("nonexistent", None),
        client().get_cask("nonexistent"),
        client().get_cask_json("nonexistent"),
    ] {
        match failure(&exchange, FetchEvent::Answered(404)) {
            Error::MissingFormula { name } => assert_eq!(name, "nonexistent"),
            _ => panic!("the formula is not missing"),
        }
    }
}

#[test]
fn first_answer_is_kept_with_its_tag() {
    let exchange = client().get_formula("foo", None);
    assert_eq!(exchange.url, "http://localhost/foo.json");
    assert!(exchange.headers.is_empty());
    assert!(matches!(exchange.on_event(FetchEvent::Answered(200)), FetchStep::ReadBody));
    let (body, store) = received(&exchange, Some("\"abc123\""), "{}");
    assert_eq!(body, "{}");
    let kept = store.unwrap();
    assert_eq!(kept.etag, Some("\"abc123\"".to_string()));
    assert_eq!(kept.last_modified, None);
    assert_eq!(kept.body, "{}");
}

#[test]
fn kept_tag_is_sent() {
    let kept = entry(Some("\"abc123\""), Some("Mon, 01 Jan 2024 00:00:00 GMT"), "{}");
    let exchange = client().get_formula("foo", Some(kept));
    assert_eq!(
        exchange.headers,
        vec![
            ("If-None-Match".to_string(), "\"abc123\"".to_string()),
            ("If-Modified-Since".to_string(), "Mon, 01 Jan 2024 00:00:00 GMT".to_string()),
        ]
    );
    let dated = client().get_formula("foo", Some(entry(None, Some("d"), "{}")));
    assert_eq!(dated.headers, vec![("If-Modified-Since".to_string(), "d".to_string())]);
}

#[test]
fn kept_body_is_used_when_nothing_changed() {
    let exchange = client().get_formula("foo", Some(entry(Some("t"), None, "{\"kept\":1}")));
    match exchange.on_event(FetchEvent::Answered(304)) {
        FetchStep::UseCached(body) => assert_eq!(body, "{\"kept\":1}"),
        _ => panic!("the kept body is not used"),
    }
}

#[test]
fn unchanged_without_a_kept_answer_is_a_failure() {
    let exchange = client().get_formula("foo", None);
    assert_eq!(
        network_message(failure(&exchange, FetchEvent::Answered(304))),
        "HTTP 304 Not Modified"
    );
}

#[test]
fn other_statuses_are_failures_in_words() {
    let exchange = client().get_formula("foo", None);
    for (status, words) in [
        (500, "HTTP 500 Internal Server Error"),
        (403, "HTTP 403 Forbidden"),
        (301, "HTTP 301 Moved Permanently"),
        (199, "HTTP 199 <unknown status code>"),
        (300, "HTTP 300 Multiple Choices"),
        (999, "HTTP 999 <unknown status code>"),
    ] {
        assert_eq!(network_message(failure(&exchange, FetchEvent::Answered(status))), words);
    }
    for status in [200, 204, 299] {
        assert!(matches!(exchange.on_event(FetchEvent::Answered(status)), FetchStep::ReadBody));
    }
}

#[test]
fn list_that_is_not_found_is_a_failure() {
    let exchange = client().get_all_formula_summaries(None);
    assert_eq!(
        network_message(failure(&exchange, FetchEvent::Answered(404))),
        "HTTP 404 Not Found"
    );
}

#[test]
fn broken_connections_are_failures() {
    let exchange = client().get_formula("foo", None);
    assert_eq!(
        network_message(failure(&exchange, FetchEvent::SendFailed("refused".to_string()))),
        "refused"
    );
    assert_eq!(
        network_message(failure(&exchange, FetchEvent::BodyFailed("cut".to_string()))),
        "failed to read response body: cut"
    );
}

#[test]
fn nothing_is_kept_without_a_cache() {
    let plain = ApiClient::with_base_url("http://localhost".to_string());
    assert!(received(&plain.get_formula("foo", None), Some("t"), "{}").1.is_none());
    assert!(received(&client().get_cask("foo"), Some("t"), "{}").1.is_none());
}

#[test]
fn list_is_kept_once_it_is_summarized() {
    let exchange = client().get_all_cask_summaries(None);
    assert_eq!(exchange.url, "https://formulae.brew.sh/api/cask.json");
    assert_eq!(exchange.url, client().cask_list());
    assert!(received(&exchange, Some("t"), "[1]").1.is_none());
    let kept = exchange.summarized(Some("t".to_string()), None, "[]".to_string()).unwrap();
    assert_eq!(kept.etag, Some("t".to_string()));
    assert_eq!(kept.body, "[]");
    let plain = ApiClient::new().get_all_formula_summaries(None);
    assert_eq!(plain.url, "https://formulae.brew.sh/api/formula.json");
    assert!(plain.summarized(None, None, "[]".to_string()).is_none());
}

#[test]
fn document_is_parsed() {
    let exchange = client().get_formula_json("foo", None);
    let value = exchange.document("{\"name\": \"foo\", \"n\": [1, 2]}", false).unwrap();
    assert_eq!(value["name"], "foo");
    assert_eq!(value["n"][1], 2);
}

#[test]
fn broken_document_is_a_failure_in_words() {
    let formula = client().get_formula_json("foo", None);
    let cask = client().get_cask_json("foo");
    let list = client().get_all_formula_summaries(None);
    let why = "expected value at line 1 column 1";
    for (exchange, from_cache, start) in [
        (&formula, false, "failed to parse formula JSON: "),
        (&formula, true, "failed to parse cached formula JSON: "),
        (&cask, false, "failed to parse cask JSON: "),
        (&list, false, "failed to parse full list JSON: "),
        (&list, true, "failed to parse cached summaries JSON: "),
    ] {
        let error = exchange.document("nonsense", from_cache).unwrap_err();
        assert!(network_message(error).starts_with(start));
        let error = exchange.document("x", from_cache).unwrap_err();
        assert_eq!(network_message(error), format!("{start}{why}"));
        let error = exchange.parse_failed(from_cache, "why");
        assert_eq!(network_message(error), format!("{start}why"));
    }
}

#[test]
fn status_in_words_is_a_failure() {
    assert_eq!(network_message(status_failure("418 I'm a teapot")), "HTTP 418 I'm a teapot");
}

#[test]
fn kept_summaries_are_used_when_nothing_changed() {
    let first = client().get_all_formula_summaries(None);
    let kept = first.summarized(Some("t".to_string()), Some("d".to_string()), "[2]".to_string());
    let second = client().get_all_formula_summaries(kept);
    assert_eq!(second.url, first.url);
    assert_eq!(
        second.headers,
        vec![
            ("If-None-Match".to_string(), "t".to_string()),
            ("If-Modified-Since".to_string(), "d".to_string()),
        ]
    );
    match second.on_event(FetchEvent::Answered(304)) {
        FetchStep::UseCached(body) => assert_eq!(body, "[2]"),
        _ => panic!("the kept summaries are not used"),
    }
}

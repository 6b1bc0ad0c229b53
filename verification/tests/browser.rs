use castcodes::browser::model::{normalize_url, BrowserModel, DEFAULT_BROWSER_URL};
use castcodes::browser::url_input::{resolve_with_engine, Resolved, SearchEngine};

#[test]
fn normalizes_empty_and_bare_urls() {
    assert_eq!(normalize_url(""), DEFAULT_BROWSER_URL);
    assert_eq!(normalize_url("opencoven.ai"), "https://opencoven.ai");
    assert_eq!(
        normalize_url("http://localhost:3000"),
        "http://localhost:3000"
    );
}

#[test]
fn tracks_history() {
    let mut model = BrowserModel::new("https://one.test");

    model.navigate("https://two.test");
    model.navigate("https://three.test");

    assert!(model.can_go_back());
    assert_eq!(model.go_back().as_deref(), Some("https://two.test"));
    assert!(model.can_go_forward());
    assert_eq!(model.go_forward().as_deref(), Some("https://three.test"));
}

fn resolve(raw: &str) -> Resolved {
    resolve_with_engine(raw, SearchEngine::default())
}

#[test]
fn empty_input_goes_to_about_home() {
    assert_eq!(resolve(""), Resolved::Url("about:home".to_string()));
    assert_eq!(resolve("   "), Resolved::Url("about:home".to_string()));
}

#[test]
fn known_schemes_pass_through() {
    for url in [
        "http://example.com",
        "https://example.com",
        "file:///tmp/x.html",
        "about:blank",
        "data:text/html,<h1>hi</h1>",
        "castcodes://settings",
    ] {
        assert_eq!(resolve(url), Resolved::Url(url.to_string()));
    }
}

#[test]
fn bare_hostname_gets_https() {
    assert_eq!(
        resolve("example.com"),
        Resolved::Url("https://example.com".to_string())
    );
    assert_eq!(
        resolve("example.com/path?q=1"),
        Resolved::Url("https://example.com/path?q=1".to_string())
    );
}

#[test]
fn loopback_gets_http_not_https() {
    assert_eq!(
        resolve("localhost"),
        Resolved::Url("http://localhost".to_string())
    );
    assert_eq!(
        resolve("localhost:3000"),
        Resolved::Url("http://localhost:3000".to_string())
    );
    assert_eq!(
        resolve("127.0.0.1:8080/api"),
        Resolved::Url("http://127.0.0.1:8080/api".to_string())
    );
    assert_eq!(resolve("::1"), Resolved::Url("http://::1".to_string()));
    assert_eq!(
        resolve("[::1]:3000"),
        Resolved::Url("http://[::1]:3000".to_string())
    );
}

#[test]
fn default_search_engine_is_google() {
    assert_eq!(SearchEngine::default(), SearchEngine::Google);
}

#[test]
fn freetext_defaults_to_google_search() {
    assert_eq!(
        resolve("rust async traits"),
        Resolved::Search("https://www.google.com/search?q=rust%20async%20traits".to_string())
    );
    assert_eq!(
        resolve("what is the time"),
        Resolved::Search("https://www.google.com/search?q=what%20is%20the%20time".to_string())
    );
}

#[test]
fn freetext_uses_selected_engine() {
    assert_eq!(
        resolve_with_engine("rust async traits", SearchEngine::DuckDuckGo),
        Resolved::Search("https://duckduckgo.com/?q=rust%20async%20traits".to_string())
    );
    assert_eq!(
        resolve_with_engine("rust async traits", SearchEngine::Bing),
        Resolved::Search("https://www.bing.com/search?q=rust%20async%20traits".to_string())
    );
    assert_eq!(
        resolve_with_engine("rust", SearchEngine::Kagi),
        Resolved::Search("https://kagi.com/search?q=rust".to_string())
    );
    assert_eq!(
        resolve_with_engine("rust", SearchEngine::Brave),
        Resolved::Search("https://search.brave.com/search?q=rust".to_string())
    );
}

#[test]
fn input_with_spaces_but_dotty_is_still_search() {
    assert_eq!(
        resolve("foo.bar baz"),
        Resolved::Search("https://www.google.com/search?q=foo.bar%20baz".to_string())
    );
}

#[test]
fn all_variants_have_distinct_prefixes() {
    let mut seen = std::collections::HashSet::new();
    for engine in SearchEngine::all() {
        assert!(
            seen.insert(engine.query_url_prefix()),
            "duplicate prefix for {:?}",
            engine
        );
    }
}

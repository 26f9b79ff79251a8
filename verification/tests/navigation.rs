use halka_browser::browser_core::navigation::{NavigationManager, ParsedUrl};

#[test]
fn test_valid_urls() {
    assert_eq!(
        NavigationManager::parse_input_to_url("https://github.com"),
        "https://github.com/"
    );
    assert_eq!(
        NavigationManager::parse_input_to_url("http://google.com"),
        "http://google.com/"
    );
}

#[test]
fn test_domain_names() {
    assert_eq!(
        NavigationManager::parse_input_to_url("wikipedia.org"),
        "https://wikipedia.org/"
    );
}

#[test]
fn test_search_queries() {
    assert_eq!(
        NavigationManager::parse_input_to_url("rust programming language"),
        "https://www.google.com/search?q=rust%20programming%20language"
    );
}

#[test]
fn blank_input_opens_home() {
    assert_eq!(NavigationManager::parse_input_to_url("   "), "https://www.google.com");
    assert_eq!(NavigationManager::parse_input_to_url(""), "https://www.google.com");
}

#[test]
fn hosts_and_paths_get_https() {
    assert_eq!(
        NavigationManager::parse_input_to_url("  reddit.com/r/rust "),
        "https://reddit.com/r/rust"
    );
    assert_eq!(
        NavigationManager::parse_input_to_url("localhost:3000"),
        "https://localhost:3000/"
    );
}

#[test]
fn other_schemes_are_searched() {
    assert_eq!(
        NavigationManager::parse_input_to_url("mailto:someone"),
        "https://www.google.com/search?q=mailto%3Asomeone"
    );
}

#[test]
fn search_encodes_utf8_bytes() {
    assert_eq!(
        NavigationManager::parse_input_to_url("café au lait"),
        "https://www.google.com/search?q=caf%C3%A9%20au%20lait"
    );
}

#[test]
fn target_from_given_parses() {
    let web = ParsedUrl { scheme: "https".to_string(), href: "https://a.example/".to_string() };
    assert_eq!(
        NavigationManager::target_from_parses("x y", Some(web), None),
        "https://a.example/"
    );
    let ftp = ParsedUrl { scheme: "ftp".to_string(), href: "ftp://a/".to_string() };
    let pre = ParsedUrl { scheme: "https".to_string(), href: "https://b.example/".to_string() };
    assert_eq!(
        NavigationManager::target_from_parses("b.example", Some(ftp), Some(pre)),
        "https://b.example/"
    );
    assert_eq!(
        NavigationManager::target_from_parses("a b", None, None),
        "https://www.google.com/search?q=a%20b"
    );
    assert_eq!(NavigationManager::target_from_parses("", None, None), "https://www.google.com");
}

use pagecache::page::cache_key;
use pagecache::page::domain;
use pagecache::page::DomainError;
use pagecache::site::Site;

#[test]
fn registrable_domain_strips_subdomains() {
    assert_eq!(domain("www.example.com"), Some(String::from("example.com")));
    assert_eq!(domain("example.com"), Some(String::from("example.com")));
    assert_eq!(
        domain("www.example.co.uk"),
        Some(String::from("example.co.uk"))
    );
}

#[test]
fn cache_key_scenario() {
    let key = cache_key("https://example.com/a b", Some("example.com")).expect("key derives");
    assert_eq!(key.domain, "example.com");
    assert_eq!(key.encoded_url, "https%3a%2f%2fexample.com%2fa%20b");
    assert_eq!(
        key.metadata_path,
        "data/example.com/https%3a%2f%2fexample.com%2fa%20b.metadata.json"
    );
    assert_eq!(
        key.content_path,
        "data/example.com/https%3a%2f%2fexample.com%2fa%20b.content.html"
    );
}

#[test]
fn host_without_registrable_domain_fails() {
    assert_eq!(domain("localhost"), None);
    assert_eq!(domain("com"), None);
    assert!(matches!(
        cache_key("http://localhost/", Some("localhost")),
        Err(DomainError)
    ));
}

#[test]
fn non_ascii_urls_keep_their_characters_in_the_key() {
    let key =
        cache_key("https://example.com/caf\u{e9}", Some("example.com")).expect("key derives");
    assert_eq!(key.encoded_url, "https%3a%2f%2fexample.com%2fcaf\u{e9}");
    assert_eq!(
        key.metadata_path,
        "data/example.com/https%3a%2f%2fexample.com%2fcaf\u{e9}.metadata.json"
    );
}

#[test]
fn missing_host_fails() {
    assert!(matches!(cache_key("data:text/plain,hi", None), Err(DomainError)));
}

#[test]
fn new_site_is_empty() {
    let site = Site::new(String::from("example.com"));
    assert_eq!(site.domain, "example.com");
    assert_eq!(site.pages.len(), 0);
}

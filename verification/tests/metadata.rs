use pagecache::json::parse_metadata;
use pagecache::page::Page;

fn sample_page() -> Page {
    Page::from_fetch(
        String::from("https://example.com/"),
        String::from("example.com"),
        200,
        Some(String::from("text/html")),
        Some(String::from("\"abc123\"")),
        None,
        String::from("<html>hi</html>"),
    )
}

#[test]
fn serialized_form_is_canonical() {
    let p = sample_page();
    assert_eq!(
        p.metadata_json(),
        "{\"url\":\"https://example.com/\",\"domain\":\"example.com\",\"status\":200,\
         \"content_type\":\"text/html\",\"etag\":\"\\\"abc123\\\"\",\
         \"last_modified\":null,\"len\":15}"
    );
}

#[test]
fn round_trip_restores_every_field() {
    let p = sample_page();
    let record = p.metadata_json();
    let q = Page::from_cache_parts(&record, p.content.clone()).expect("cached page parses");
    assert_eq!(q.url, p.url);
    assert_eq!(q.domain, p.domain);
    assert_eq!(q.status, p.status);
    assert_eq!(q.content_type, p.content_type);
    assert_eq!(q.etag, p.etag);
    assert_eq!(q.last_modified, p.last_modified);
    assert_eq!(q.len, p.len);
    assert_eq!(q.content, p.content);
}

#[test]
fn missing_etag_serializes_as_null_not_empty() {
    let p = Page::from_fetch(
        String::from("https://example.com/"),
        String::from("example.com"),
        404,
        None,
        None,
        None,
        String::new(),
    );
    let record = p.metadata_json();
    assert!(record.contains("\"etag\":null"));
    assert!(!record.contains("\"etag\":\"\""));
    let q = Page::from_cache_parts(&record, String::new()).expect("parses");
    assert_eq!(q.etag, None);
}

#[test]
fn parser_accepts_a_handwritten_canonical_record() {
    let text = "{\"url\":\"u\",\"domain\":\"d\",\"status\":301,\"content_type\":null,\
                \"etag\":null,\"last_modified\":null,\"len\":0}";
    let md = parse_metadata(text).expect("canonical record parses");
    assert_eq!(md.url, "u");
    assert_eq!(md.domain, "d");
    assert_eq!(md.status, 301);
    assert_eq!(md.content_type, None);
    assert_eq!(md.etag, None);
    assert_eq!(md.last_modified, None);
    assert_eq!(md.len, 0);
}

#[test]
fn parser_unescapes_string_values() {
    let text = "{\"url\":\"a\\\"b\\\\c\\nd\\u0001e\",\"domain\":\"d\",\"status\":200,\
                \"content_type\":null,\"etag\":null,\"last_modified\":null,\"len\":7}";
    let md = parse_metadata(text).expect("escaped record parses");
    assert_eq!(md.url, "a\"b\\c\nd\u{1}e");
}

#[test]
fn escapes_round_trip_through_the_record() {
    let p = Page::from_fetch(
        String::from("https://example.com/\"quote\"\\back\ttab\u{2}ctl"),
        String::from("example.com"),
        200,
        None,
        None,
        None,
        String::new(),
    );
    let record = p.metadata_json();
    let q = Page::from_cache_parts(&record, String::new()).expect("parses");
    assert_eq!(q.url, p.url);
}

#[test]
fn parser_rejects_corrupt_records() {
    assert!(parse_metadata("").is_none());
    assert!(parse_metadata("{").is_none());
    assert!(parse_metadata("nonsense").is_none());
    let unterminated = "{\"url\":\"u";
    assert!(parse_metadata(unterminated).is_none());
    let bad_status = "{\"url\":\"u\",\"domain\":\"d\",\"status\":99,\"content_type\":null,\
                      \"etag\":null,\"last_modified\":null,\"len\":0}";
    assert!(parse_metadata(bad_status).is_none());
    let trailing = "{\"url\":\"u\",\"domain\":\"d\",\"status\":200,\"content_type\":null,\
                    \"etag\":null,\"last_modified\":null,\"len\":0} ";
    assert!(parse_metadata(trailing).is_none());
    let missing_field = "{\"url\":\"u\",\"domain\":\"d\",\"status\":200,\"content_type\":null,\
                         \"etag\":null,\"len\":0}";
    assert!(parse_metadata(missing_field).is_none());
}

#[test]
fn status_must_have_three_digits() {
    let low = "{\"url\":\"u\",\"domain\":\"d\",\"status\":100,\"content_type\":null,\
               \"etag\":null,\"last_modified\":null,\"len\":0}";
    assert_eq!(parse_metadata(low).expect("parses").status, 100);
    let high = "{\"url\":\"u\",\"domain\":\"d\",\"status\":1000,\"content_type\":null,\
                \"etag\":null,\"last_modified\":null,\"len\":0}";
    assert!(parse_metadata(high).is_none());
}

#[test]
fn fetched_len_is_the_byte_length_of_the_body() {
    let p = Page::from_fetch(
        String::from("https://example.com/"),
        String::from("example.com"),
        200,
        None,
        None,
        None,
        String::from("caf\u{e9}"),
    );
    assert_eq!(p.len, 5);
    assert_eq!(p.len, p.content.len());
}

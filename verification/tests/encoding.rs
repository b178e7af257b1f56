use pagecache::encode::encode_url;

#[test]
fn safe_characters_pass_through() {
    assert_eq!(encode_url("abcXYZ019-_.~"), "abcXYZ019-_.~");
}

#[test]
fn non_ascii_passes_through() {
    assert_eq!(encode_url("caf\u{e9}"), "caf\u{e9}");
}

#[test]
fn reserved_ascii_is_escaped() {
    assert_eq!(encode_url("a b"), "a%20b");
    assert_eq!(encode_url("a/b"), "a%2fb");
    assert_eq!(encode_url("a:b"), "a%3ab");
    assert_eq!(encode_url("a%b"), "a%25b");
}

#[test]
fn low_byte_makes_one_digit_escape() {
    assert_eq!(encode_url("\u{1}"), "%1");
    assert_eq!(encode_url("\u{f}"), "%f");
    assert_eq!(encode_url("\u{10}"), "%10");
}

#[test]
fn full_url_scenario() {
    assert_eq!(
        encode_url("https://example.com/a b"),
        "https%3a%2f%2fexample.com%2fa%20b"
    );
}

#[test]
fn encoding_twice_differs_on_percent() {
    let once = encode_url("a%b");
    let twice = encode_url(&once);
    assert_eq!(once, "a%25b");
    assert_eq!(twice, "a%2525b");
    assert_ne!(once, twice);
}

#[test]
fn encoding_twice_is_identity_only_on_safe_text() {
    let safe = encode_url("already-safe_text.~");
    assert_eq!(encode_url(&safe), safe);
    let unsafe_once = encode_url("with space");
    assert_ne!(encode_url(&unsafe_once), unsafe_once);
}

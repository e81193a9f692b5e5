use predict::normalize::{normalize_records, parse_github_emoji_url, parse_unicode, ParseError};

#[test]
fn single_codepoint_reference() {
    let url = String::from("https://example.com/images/emoji/1f600.png?v1");
    let text = parse_github_emoji_url(&url).unwrap();
    assert_eq!(text, "\u{1F600}");
}

#[test]
fn multi_codepoint_reference() {
    let url = String::from("https://example.com/images/emoji/1f469-200d-1f4bb.png");
    let text = parse_github_emoji_url(&url).unwrap();
    assert_eq!(text, "\u{1F469}\u{200D}\u{1F4BB}");
}

#[test]
fn non_hex_reference_is_invalid_hex() {
    let url = String::from("https://example.com/images/icons/emoji/zz.png");
    assert_eq!(parse_github_emoji_url(&url), Err(ParseError::InvalidHex));
}

#[test]
fn empty_segment_is_malformed() {
    let url = String::from("https://example.com/images/");
    assert_eq!(parse_github_emoji_url(&url), Err(ParseError::MalformedReference));
}

#[test]
fn reference_without_slash_or_dot() {
    let url = String::from("1f31f");
    assert_eq!(parse_github_emoji_url(&url).unwrap(), "\u{1F31F}");
}

#[test]
fn parse_unicode_basic() {
    assert_eq!(parse_unicode("1f600").unwrap(), '\u{1F600}');
    assert_eq!(parse_unicode("61").unwrap(), 'a');
    assert_eq!(parse_unicode("A").unwrap(), '\n');
}

#[test]
fn parse_unicode_empty_is_invalid_hex() {
    assert_eq!(parse_unicode(""), Err(ParseError::InvalidHex));
}

#[test]
fn parse_unicode_surrogate_is_invalid_codepoint() {
    assert_eq!(parse_unicode("d800"), Err(ParseError::InvalidCodepoint(0xD800)));
    assert_eq!(parse_unicode("110000"), Err(ParseError::InvalidCodepoint(0x110000)));
}

#[test]
fn parse_unicode_overflow_is_invalid_hex() {
    assert_eq!(parse_unicode("fffffffff"), Err(ParseError::InvalidHex));
}

#[test]
fn normalize_drops_bad_records_only() {
    let raw = vec![
        (String::from("grin"), String::from("https://e.com/i/1f600.png?v1")),
        (String::from("bowtie"), String::from("https://e.com/images/icons/bowtie.png?v8")),
        (String::from("star"), String::from("https://e.com/i/2b50.png")),
    ];
    let cleaned = normalize_records(&raw);
    assert_eq!(
        cleaned,
        vec![
            (String::from("grin"), String::from("\u{1F600}")),
            (String::from("star"), String::from("\u{2B50}")),
        ]
    );
}

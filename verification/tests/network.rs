use ug_scraper::network::{encode_string, unescape_decoded, unescape_string};

#[test]
fn unescape_documented_example() {
    assert_eq!(unescape_string("This\\t is a tab."), "This\t is a tab.");
}

#[test]
fn unescape_backslash_escapes() {
    assert_eq!(unescape_string("a\\nb\\rc\\td\\\"e"), "a\nb\rc\td\"e");
}

#[test]
fn unescape_html_entities() {
    assert_eq!(unescape_string("Rock &amp; Roll &quot;live&quot;"), "Rock & Roll \"live\"");
    assert_eq!(unescape_string("Don&#039;t Stop"), "Don't Stop");
    assert_eq!(unescape_string("Zu Sp&auml;t"), "Zu Spät");
}

#[test]
fn unescape_plain_text_unchanged() {
    assert_eq!(unescape_string("Never gonna give you up"), "Never gonna give you up");
    assert_eq!(unescape_string(""), "");
}

#[test]
fn unescape_after_decoding() {
    let decoded: Vec<char> = "x\\ny".chars().collect();
    let r: String = unescape_decoded(&decoded).into_iter().collect();
    assert_eq!(r, "x\ny");
}

#[test]
fn encode_documented_example() {
    assert_eq!(encode_string("This is an example & \""), "This%20is%20an%20example%20&amp;%20&quot;");
}

#[test]
fn encode_attribute_characters() {
    assert_eq!(encode_string("a<b>c"), "a&lt;b&gt;c");
    assert_eq!(encode_string("foo bar?"), "foo%20bar?");
    assert_eq!(encode_string("Don't stop-me_now."), "Don't%20stop-me_now.");
    assert_eq!(encode_string("  "), "%20%20");
}

#[test]
fn encode_plain_and_non_ascii() {
    assert_eq!(encode_string("abcXYZ019"), "abcXYZ019");
    assert_eq!(encode_string("Zu Spät"), "Zu%20Spät");
    assert_eq!(encode_string(""), "");
}

#[test]
fn unescape_without_entities_replaces_escapes_only() {
    assert_eq!(unescape_string("x\\ny \\q"), "x\ny \\q");
}

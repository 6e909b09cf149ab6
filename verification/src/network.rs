//! Decoding and encoding of text that goes to and comes from Ultimate Guitar.
use vstd::prelude::*;

use crate::text::{
    lemma_replace_avoids, occurs_at, from_chars, law_replace_absent_pattern, lemma_absent_first_char, replace_all, replace_str,
    to_chars,
};

verus! {

/// What `html_escape::decode_html_entities` makes of a text: named and numeric character
/// references that end with `;` are replaced by the characters they stand for.
pub uninterp spec fn html_entities_decoded(s: Seq<char>) -> Seq<char>;

/// Trusted: calls `html_escape::decode_html_entities`. The result is named; the one fact
/// stated of it is what its source shows directly: a text without `&` holds no reference and
/// comes back unchanged.
#[verifier::external_body]
fn decode_entities(s: &str) -> (r: String)
    ensures
        r@ == html_entities_decoded(s@),
        !s@.contains('&') ==> r@ == s@,
{
    html_escape::decode_html_entities(s).to_string()
}

/// The backslash escapes that pages hold for line feed, tab, carriage return and double
/// quote, replaced by the characters themselves, in that order.
pub open spec fn unescaped(s: Seq<char>) -> Seq<char> {
    replace_all(
        replace_all(replace_all(replace_all(s, "\\n"@, "\n"@), "\\t"@, "\t"@), "\\r"@, "\r"@),
        "\\\""@,
        "\""@,
    )
}

/// Replaces backslash escapes in a text whose HTML character references were decoded already.
pub fn unescape_decoded(decoded: &[char]) -> (r: Vec<char>)
    ensures
        r@ == unescaped(decoded@),
{
    proof {
        reveal_strlit("\\n");
        reveal_strlit("\\t");
        reveal_strlit("\\r");
        reveal_strlit("\\\"");
    }
    let a = replace_str(decoded, "\\n", "\n");
    let b = replace_str(a.as_slice(), "\\t", "\t");
    let c = replace_str(b.as_slice(), "\\r", "\r");
    replace_str(c.as_slice(), "\\\"", "\"")
}

/// Text without backslashes holds no escape, so `unescaped` leaves it as it is.
pub proof fn law_plain_text_unescaped(s: Seq<char>)
    requires
        !s.contains('\\'),
    ensures
        unescaped(s) == s,
{
    reveal_strlit("\\n");
    reveal_strlit("\\t");
    reveal_strlit("\\r");
    reveal_strlit("\\\"");
    lemma_absent_first_char(s, "\\n"@);
    law_replace_absent_pattern(s, "\\n"@, "\n"@);
    lemma_absent_first_char(s, "\\t"@);
    law_replace_absent_pattern(s, "\\t"@, "\t"@);
    lemma_absent_first_char(s, "\\r"@);
    law_replace_absent_pattern(s, "\\r"@, "\r"@);
    lemma_absent_first_char(s, "\\\""@);
    law_replace_absent_pattern(s, "\\\""@, "\""@);
}

/// Returns a string with HTML character references decoded and common backslash escapes
/// replaced by the characters they stand for. Text without `&` and without backslashes
/// comes back unchanged.
pub fn unescape_string(string: &str) -> (r: String)
    ensures
        r@ == unescaped(html_entities_decoded(string@)),
        !string@.contains('&') ==> r@ == unescaped(string@),
        !string@.contains('&') && !string@.contains('\\') ==> r@ == string@,
{
    let decoded = decode_entities(string);
    proof {
        if !string@.contains('&') && !string@.contains('\\') {
            law_plain_text_unescaped(string@);
        }
    }
    let d = to_chars(decoded.as_str());
    let r = unescape_decoded(d.as_slice());
    from_chars(r.as_slice())
}

/// How `html_escape::encode_double_quoted_attribute` writes one character: `&`, `<`, `>`
/// and `"` become character references, every other character stands for itself.
pub open spec fn attribute_escaped_char(c: char) -> Seq<char> {
    if c == '&' {
        "&amp;"@
    } else if c == '<' {
        "&lt;"@
    } else if c == '>' {
        "&gt;"@
    } else if c == '"' {
        "&quot;"@
    } else {
        seq![c]
    }
}

/// A text escaped for use in a double-quoted HTML attribute, character by character.
pub open spec fn attribute_escaped(s: Seq<char>) -> Seq<char>
    decreases s.len(),
{
    if s.len() == 0 {
        Seq::empty()
    } else {
        attribute_escaped(s.drop_last()) + attribute_escaped_char(s.last())
    }
}

/// Trusted: calls `html_escape::encode_double_quoted_attribute`. Its source scans the UTF-8
/// bytes and replaces `&`, `<`, `>` and `"` by `&amp;`, `&lt;`, `&gt;` and `&quot;`, copying
/// everything else; since those are ASCII bytes, this is the same character by character.
#[verifier::external_body]
fn encode_attribute(s: &str) -> (r: String)
    ensures
        r@ == attribute_escaped(s@),
{
    html_escape::encode_double_quoted_attribute(s).to_string()
}

/// The encoding of a URL argument: escaped as in a double-quoted HTML attribute, then every
/// space written as `%20`.
pub open spec fn url_argument(s: Seq<char>) -> Seq<char> {
    replace_all(attribute_escaped(s), " "@, "%20"@)
}

/// Escaping for an attribute leaves no double quote.
proof fn lemma_attribute_escaped_has_no_quote(s: Seq<char>)
    ensures
        forall|k: int| 0 <= k < attribute_escaped(s).len() ==> #[trigger] attribute_escaped(s)[k] != '"',
    decreases s.len(),
{
    if s.len() > 0 {
        reveal_strlit("&amp;");
        reveal_strlit("&lt;");
        reveal_strlit("&gt;");
        reveal_strlit("&quot;");
        lemma_attribute_escaped_has_no_quote(s.drop_last());
        let a = attribute_escaped(s.drop_last());
        let b = attribute_escaped_char(s.last());
        assert forall|k: int| 0 <= k < attribute_escaped(s).len() implies #[trigger] attribute_escaped(
            s,
        )[k] != '"' by {
            if k < a.len() {
                assert(attribute_escaped(s)[k] == a[k]);
            } else {
                assert(attribute_escaped(s)[k] == b[k - a.len()]);
            }
        }
    }
}

/// An encoded URL argument holds no space and no double quote.
pub proof fn law_url_argument_has_no_space_or_quote(s: Seq<char>)
    ensures
        forall|k: int|
            0 <= k < url_argument(s).len() ==> #[trigger] url_argument(s)[k] != ' '
                && url_argument(s)[k] != '"',
{
    reveal_strlit(" ");
    reveal_strlit("%20");
    let e = attribute_escaped(s);
    lemma_attribute_escaped_has_no_quote(s);
    let bad = |c: char| c == ' ' || c == '"';
    assert forall|j: int| 0 <= j < e.len() && #[trigger] bad(e[j]) implies " "@.len() > 0
        && occurs_at(e, " "@, j) by {
        assert(e[j] != '"');
        assert(e.subrange(j, j + 1) =~= " "@);
    }
    lemma_replace_avoids(e, " "@, "%20"@, 0, bad);
    assert forall|k: int| 0 <= k < url_argument(s).len() implies #[trigger] url_argument(s)[k]
        != ' ' && url_argument(s)[k] != '"' by {
        assert(!bad(url_argument(s)[k]));
    }
}

/// Applies basic encoding for use as an argument for a URL: `&`, `<`, `>` and `"` become
/// HTML character references and spaces become `%20`.
pub fn encode_string(string: &str) -> (r: String)
    ensures
        r@ == url_argument(string@),
{
    proof {
        reveal_strlit(" ");
    }
    let escaped = encode_attribute(string);
    let e = to_chars(escaped.as_str());
    let r = replace_str(e.as_slice(), " ", "%20");
    from_chars(r.as_slice())
}

} // verus!

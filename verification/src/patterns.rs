//! The regular expressions that pick data out of Ultimate Guitar pages, and the calls into
//! the `regex` crate that apply them.
use vstd::prelude::*;

verus! {

/// Recognises a link to a tab on Ultimate Guitar.
pub const VALID_LINK_REGEX: &'static str = r"http[s]*:\/\/[www.]*[tabs.]*ultimate-guitar.com\/tab\/[\S]+";

/// Picks capo, tonality, tuning name and tuning out of a tab page.
pub const METADATA_REGEX: &'static str = r"&quot;adsupp_binary_blocked&quot;:null,&quot;meta&quot;:\{[&quot;capo&quot;:]*(\d*)[,]*&quot;[tonality&quot;:&quot;]*(\w*)[&quot;,&quot;]*tuning&quot;:\{&quot;name&quot;:&quot;([^:]*)&quot;,&quot;value&quot;:&quot;([^:]*)&quot;,";

/// Picks tab ID, song ID, title, artist and type label out of a tab page.
pub const BASIC_DATA_REGEX: &'static str = r"tab&quot;:\{&quot;id&quot;:(\d+),&quot;song_id&quot;:(\d+),&quot;song_name&quot;:&quot;([^:]+)&quot;,&quot;artist_id&quot;:\d+,&quot;artist_name&quot;:&quot;([^:]+)&quot;,&quot;type&quot;:&quot;([\w\s]+)&quot;,&quot;part&quot;:";

/// Picks tab ID, song ID, title, artist, type label, vote count, rating and link out of each
/// entry of a search result page.
pub const DATA_REGEX: &'static str = r"(?:&quot;id&quot;:(\d{2,}).+?song_id&quot;:(\d+).+?song_name&quot;:&quot;([^&]+).*?artist_name&quot;:&quot;([^&]+).*?type&quot;:&quot;([\w\s]+).+?votes&quot;:(\d*).*?rating&quot;:([\d\.]+)).*?&quot;tab_url&quot;:&quot;(https://tabs\.ultimate-guitar\.com/tab/[^/\.]+/[^/\.&]+)&quot;";

/// The patterns that this crate applies.
pub open spec fn is_crate_pattern(p: Seq<char>) -> bool {
    ||| p == VALID_LINK_REGEX@
    ||| p == METADATA_REGEX@
    ||| p == BASIC_DATA_REGEX@
    ||| p == DATA_REGEX@
}

/// The capture groups of the leftmost match of `pattern` in `haystack`, as the `regex` crate
/// finds them (group 0 is the whole match; a group that took no part is `None`), or `None`
/// when the pattern does not match.
pub uninterp spec fn regex_first_captures(pattern: Seq<char>, haystack: Seq<char>) -> Option<
    Seq<Option<Seq<char>>>,
>;

/// The capture groups of each successive non-overlapping match of `pattern` in `haystack`,
/// as the `regex` crate's `captures_iter` yields them.
pub uninterp spec fn regex_all_captures(pattern: Seq<char>, haystack: Seq<char>) -> Seq<
    Seq<Option<Seq<char>>>,
>;

/// Trusted: compiles `pattern` with `regex::Regex::new` and applies `Regex::captures` to
/// `haystack`. The contract only names the result: it is the same for the same pattern and
/// text. Compiling fails on no pattern that `requires` admits, so the `unwrap` does not panic.
#[verifier::external_body]
pub(crate) fn regex_captures(pattern: &str, haystack: &str) -> (r: Option<Vec<Option<String>>>)
    requires
        is_crate_pattern(pattern@),
    ensures
        r.deep_view() == regex_first_captures(pattern@, haystack@),
{
    let re = regex::Regex::new(pattern).unwrap();
    re.captures(haystack).map(
        |caps| caps.iter().map(|m| m.map(|m| m.as_str().to_string())).collect(),
    )
}

/// Trusted: compiles `pattern` with `regex::Regex::new` and collects what
/// `Regex::captures_iter` yields on `haystack`. The contract only names the result.
/// Compiling fails on no pattern that `requires` admits.
#[verifier::external_body]
pub(crate) fn regex_captures_all(pattern: &str, haystack: &str) -> (r: Vec<Vec<Option<String>>>)
    requires
        is_crate_pattern(pattern@),
    ensures
        r.deep_view() == regex_all_captures(pattern@, haystack@),
{
    let re = regex::Regex::new(pattern).unwrap();
    re.captures_iter(haystack).map(
        |caps| caps.iter().map(|m| m.map(|m| m.as_str().to_string())).collect(),
    ).collect()
}

/// The text of capture group `i`, or nothing when the group is absent or took no part.
pub open spec fn group_text(caps: Seq<Option<Seq<char>>>, i: int) -> Seq<char> {
    if 0 <= i < caps.len() && caps[i] is Some {
        caps[i]->0
    } else {
        Seq::empty()
    }
}

/// The text of capture group `i`, or an empty string when the group is absent or took no part.
pub fn group_string(caps: &Vec<Option<String>>, i: usize) -> (s: String)
    ensures
        s@ == group_text(caps.deep_view(), i as int),
{
    if i < caps.len() {
        match &caps[i] {
            Some(t) => t.clone(),
            None => String::new(),
        }
    } else {
        String::new()
    }
}

} // verus!

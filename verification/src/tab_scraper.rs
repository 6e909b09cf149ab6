//! Reading a tab and its metadata out of the HTML of a tab page.
use vstd::prelude::*;

use crate::error::UGError;
use crate::network::{html_entities_decoded, unescape_string, unescaped};
use crate::patterns::{
    group_string, group_text, regex_captures, regex_first_captures, BASIC_DATA_REGEX,
    METADATA_REGEX, VALID_LINK_REGEX,
};
use crate::text::{
    after_first, after_first_exec, before_first, before_first_exec, contains, contains_exec,
    contains_str, from_chars, lines_of, parse_u32, parse_u32_spec, replace_all, replace_str,
    split_lines, to_chars, char_views, find_from, groups_from, is_bracket, is_bracket_word,
    lemma_absent_first_char, lemma_find_from, lemma_group_occurrence_ok, lemma_no_groups_no_brackets,
    lemma_remove_group, law_replace_absent_pattern, lemma_remove_group_keeps, occurs_at,
};
use crate::types::{
    data_type_of, english_chord_names, lemma_no_empty_label, get_data_type, line_views, metadata_view, BasicSongData,
    BasicSongView, DataSetType, DataType, Line, Song, SongMetaData, SongMetaDataView,
};

verus! {

/// Marks the end of the tab's content in a tab page.
pub const END_OF_CHORDS_DELIM: &'static str = "&quot;,&quot;revision_id&quot;:";

/// Marks the start of the tab's content in a tab page.
pub const START_OF_CHORDS_DELIM: &'static str = "&quot;:{&quot;wiki_tab&quot;:{&quot;content&quot;:&quot;";

/// Marks of pages that cannot be read as tabs.
pub const HTML_BLACKLIST: [&'static str; 1] = ["&quot;type&quot;:&quot;Video&quot;"];

// ---------------------------------------------------------------------------
// Specifications
// ---------------------------------------------------------------------------

/// A page can be read as a tab: it holds no blacklisted mark, and it holds both delimiters
/// of the tab's content.
pub open spec fn html_is_valid(h: Seq<char>) -> bool {
    &&& forall|k: int| 0 <= k < HTML_BLACKLIST@.len() ==> !contains(h, #[trigger] HTML_BLACKLIST@[k]@)
    &&& contains(h, START_OF_CHORDS_DELIM@)
    &&& contains(h, END_OF_CHORDS_DELIM@)
}

/// The start delimiter comes before the first end delimiter.
pub open spec fn tab_content_located(h: Seq<char>) -> bool {
    contains(before_first(h, END_OF_CHORDS_DELIM@), START_OF_CHORDS_DELIM@)
}

/// The raw content of the tab: in the text before the first end delimiter, what follows the
/// first start delimiter, up to the next start delimiter if there is one.
pub open spec fn tab_content(h: Seq<char>) -> Seq<char> {
    before_first(
        after_first(before_first(h, END_OF_CHORDS_DELIM@), START_OF_CHORDS_DELIM@),
        START_OF_CHORDS_DELIM@,
    )
}

/// A line with its markup removed: the tags `[ch]`, `[/ch]`, `[tab]` and `[/tab]`, in that order.
pub open spec fn without_tags(l: Seq<char>) -> Seq<char> {
    replace_all(
        replace_all(replace_all(replace_all(l, "[ch]"@, ""@), "[/ch]"@, ""@), "[tab]"@, ""@),
        "[/tab]"@,
        ""@,
    )
}

/// The type of a line: a chord line holds `[ch]`; otherwise a line whose cleaned text holds
/// both `[` and `]` is a section title, and any other line is a lyric.
pub open spec fn line_type_of(l: Seq<char>) -> DataType {
    if contains(l, "[ch]"@) {
        DataType::Chord
    } else if contains(without_tags(l), "["@) && contains(without_tags(l), "]"@) {
        DataType::SectionTitle
    } else {
        DataType::Lyric
    }
}

/// The evaluated form of one raw line of a tab.
pub open spec fn evaluate_line(l: Seq<char>, replace_german_names: bool) -> (DataType, Seq<char>) {
    let t = line_type_of(l);
    (
        t,
        if replace_german_names && t == DataType::Chord {
            english_chord_names(without_tags(l))
        } else {
            without_tags(l)
        },
    )
}

/// The evaluated forms of raw lines.
pub open spec fn evaluate_lines(ls: Seq<Seq<char>>, replace_german_names: bool) -> Seq<
    (DataType, Seq<char>),
> {
    ls.map_values(|l: Seq<char>| evaluate_line(l, replace_german_names))
}

/// The lines of the tab in a page.
pub open spec fn tab_lines_of(h: Seq<char>, replace_german_names: bool) -> Seq<(DataType, Seq<char>)> {
    evaluate_lines(
        lines_of(unescaped(html_entities_decoded(tab_content(h)))),
        replace_german_names,
    )
}

/// The link is one to a tab on Ultimate Guitar.
pub open spec fn link_is_valid(link: Seq<char>) -> bool {
    regex_first_captures(VALID_LINK_REGEX@, link) is Some
}

/// The tab type for a label, with `Unknown` for a label that is not known.
pub open spec fn data_type_or_unknown(label: Seq<char>) -> DataSetType {
    match data_type_of(label) {
        Some(t) => t,
        None => DataSetType::Unknown,
    }
}

/// Basic data read out of the capture groups of `BASIC_DATA_REGEX`: tab ID, song ID, title,
/// artist and type label are groups one to five. IDs that are not numbers are an error.
pub open spec fn basic_data_from(caps: Seq<Option<Seq<char>>>, link: Seq<char>) -> Result<
    BasicSongView,
    UGError,
> {
    match (parse_u32_spec(group_text(caps, 1)), parse_u32_spec(group_text(caps, 2))) {
        (Some(tab_id), Some(song_id)) => Ok(
            BasicSongView {
                title: unescaped(html_entities_decoded(group_text(caps, 3))),
                artist: unescaped(html_entities_decoded(group_text(caps, 4))),
                tab_link: link,
                song_id: song_id,
                tab_id: tab_id,
                data_type: data_type_or_unknown(group_text(caps, 5)),
            },
        ),
        _ => Err(UGError::UnexpectedWebResultError),
    }
}

/// The basic data of the tab in page `h` found at `link`, or the error that stops it.
pub open spec fn basic_metadata_of(h: Seq<char>, link: Seq<char>) -> Result<BasicSongView, UGError> {
    if !html_is_valid(h) {
        Err(UGError::InvalidHTMLError)
    } else if !link_is_valid(link) {
        Err(UGError::InvalidURLError)
    } else {
        match regex_first_captures(BASIC_DATA_REGEX@, h) {
            Some(caps) => basic_data_from(caps, link),
            None => Err(UGError::NoBasicDataMatchError),
        }
    }
}

/// The view of a result that holds basic data.
pub open spec fn basic_result_view(r: Result<BasicSongData, UGError>) -> Result<
    BasicSongView,
    UGError,
> {
    match r {
        Ok(d) => Ok(d@),
        Err(e) => Err(e),
    }
}

/// A captured text, or nothing when it is empty.
pub open spec fn optional_text(t: Seq<char>) -> Option<Seq<char>> {
    if t.len() == 0 {
        None
    } else {
        Some(t)
    }
}

/// Metadata read out of the capture groups of `METADATA_REGEX`: capo, tonality, tuning name
/// and tuning are groups one to four, and an empty group means the value is missing.
pub open spec fn metadata_from(caps: Seq<Option<Seq<char>>>) -> SongMetaDataView {
    SongMetaDataView {
        capo: optional_text(group_text(caps, 1)),
        tonality: optional_text(group_text(caps, 2)),
        tuning_name: optional_text(group_text(caps, 3)),
        tuning: optional_text(group_text(caps, 4)),
    }
}

/// The metadata of the tab in page `h`, when the page has any.
pub open spec fn metadata_of(h: Seq<char>) -> Option<SongMetaDataView> {
    match regex_first_captures(METADATA_REGEX@, h) {
        Some(caps) => Some(metadata_from(caps)),
        None => None,
    }
}

/// Basic data is only read from a page that can be read as a tab and for a link that leads
/// to a tab, and it keeps the link it was read for.
pub proof fn law_basic_data_needs_valid_page_and_link(h: Seq<char>, link: Seq<char>)
    ensures
        basic_metadata_of(h, link) matches Ok(v) ==> {
            &&& html_is_valid(h)
            &&& link_is_valid(link)
            &&& v.tab_link == link
        },
{
}

/// What `Line::replace_german_names` makes of a line's view.
pub open spec fn german_names_replaced(l: (DataType, Seq<char>)) -> (DataType, Seq<char>) {
    if l.0 == DataType::Chord {
        (l.0, english_chord_names(l.1))
    } else {
        l
    }
}

/// Reading a tab's lines with German chord names replaced gives the lines read without
/// replacement, each passed through `Line::replace_german_names`.
pub proof fn law_german_replacement_per_line(h: Seq<char>)
    ensures
        tab_lines_of(h, true) == tab_lines_of(h, false).map_values(
            |l: (DataType, Seq<char>)| german_names_replaced(l),
        ),
{
    assert(tab_lines_of(h, true) =~= tab_lines_of(h, false).map_values(
        |l: (DataType, Seq<char>)| german_names_replaced(l),
    ));
}

/// Field `f` holds the text of capture group `n` of `caps` when that group took part and its
/// text is not empty, and is missing otherwise.
pub open spec fn holds_group_text(f: Option<Seq<char>>, caps: Seq<Option<Seq<char>>>, n: int) -> bool {
    if 0 <= n < caps.len() && caps[n] is Some && caps[n]->0.len() > 0 {
        f == Some(caps[n]->0)
    } else {
        f is None
    }
}

/// A page has metadata exactly when `METADATA_REGEX` matches it, and then capo, tonality,
/// tuning name and tuning are the non-empty texts of capture groups one to four.
pub proof fn law_metadata_fields_are_captured_texts(h: Seq<char>)
    ensures
        regex_first_captures(METADATA_REGEX@, h) is None ==> metadata_of(h) is None,
        regex_first_captures(METADATA_REGEX@, h) matches Some(caps) ==> metadata_of(h) matches Some(m)
            && {
            &&& holds_group_text(m.capo, caps, 1)
            &&& holds_group_text(m.tonality, caps, 2)
            &&& holds_group_text(m.tuning_name, caps, 3)
            &&& holds_group_text(m.tuning, caps, 4)
        },
{
}

/// `d` is the type that the whole text of capture group `n` of `caps` names when it is a known
/// label, and `Unknown` when the group is missing or is no known label.
pub open spec fn type_named_by_group(d: DataSetType, caps: Seq<Option<Seq<char>>>, n: int) -> bool {
    if 0 <= n < caps.len() && caps[n] is Some && data_type_of(caps[n]->0) is Some {
        data_type_of(caps[n]->0) == Some(d)
    } else {
        d == DataSetType::Unknown
    }
}

/// The type of the basic data is the one that the whole captured type label (group five)
/// names, and `Unknown` when the label is none of the known ones; which labels are known does
/// not decide whether reading succeeds. The IDs are the numbers in groups one and two, and
/// title and artist the decoded texts of groups three and four.
pub proof fn law_basic_data_type_is_label_type(caps: Seq<Option<Seq<char>>>, link: Seq<char>)
    ensures
        basic_data_from(caps, link) matches Ok(v) ==> {
            &&& type_named_by_group(v.data_type, caps, 5)
            &&& parse_u32_spec(group_text(caps, 1)) == Some(v.tab_id)
            &&& parse_u32_spec(group_text(caps, 2)) == Some(v.song_id)
            &&& v.title == unescaped(html_entities_decoded(group_text(caps, 3)))
            &&& v.artist == unescaped(html_entities_decoded(group_text(caps, 4)))
            &&& v.tab_link == link
        },
        basic_data_from(caps, link) is Ok <==> (parse_u32_spec(group_text(caps, 1)) is Some
            && parse_u32_spec(group_text(caps, 2)) is Some),
{
    lemma_no_empty_label();
}

/// On a page, the type of the basic data is the one that the type label captured by
/// `BASIC_DATA_REGEX` names.
pub proof fn law_page_type_is_label_type(h: Seq<char>, link: Seq<char>)
    ensures
        basic_metadata_of(h, link) matches Ok(v) ==> regex_first_captures(BASIC_DATA_REGEX@, h) matches Some(
            caps,
        ) && type_named_by_group(v.data_type, caps, 5),
{
    lemma_no_empty_label();
}

/// One of the tags that cleaning removes from a line: `[ch]`, `[/ch]`, `[tab]` or `[/tab]`.
pub open spec fn is_tag(w: Seq<char>) -> bool {
    w == "[ch]"@ || w == "[/ch]"@ || w == "[tab]"@ || w == "[/tab]"@
}

/// The brackets of a line pair up: each `[` is closed by a `]` before any other bracket, and
/// each `]` closes one.
pub open spec fn brackets_pair_up(l: Seq<char>) -> bool {
    groups_from(l, 0, |w: Seq<char>| true)
}

/// The only brackets of a line are those of its tags.
pub open spec fn only_tag_brackets(l: Seq<char>) -> bool {
    groups_from(l, 0, |w: Seq<char>| is_tag(w))
}

/// Each tag is one bracket group.
proof fn lemma_tags_are_bracket_words()
    ensures
        is_bracket_word("[ch]"@),
        is_bracket_word("[/ch]"@),
        is_bracket_word("[tab]"@),
        is_bracket_word("[/tab]"@),
{
    reveal_strlit("[ch]");
    reveal_strlit("[/ch]");
    reveal_strlit("[tab]");
    reveal_strlit("[/tab]");
}

/// The four removals that cleaning makes take each tag out of the groups of a line.
proof fn lemma_without_tags_groups(l: Seq<char>, ok: spec_fn(Seq<char>) -> bool) -> (okc: spec_fn(
    Seq<char>,
) -> bool)
    requires
        groups_from(l, 0, ok),
    ensures
        groups_from(without_tags(l), 0, okc),
        forall|w: Seq<char>| #[trigger] okc(w) ==> ok(w) && !is_tag(w),
{
    lemma_tags_are_bracket_words();
    reveal_strlit("");
    assert(""@ =~= Seq::<char>::empty());
    let e = ""@;
    let s1 = replace_all(l, "[ch]"@, e);
    let s2 = replace_all(s1, "[/ch]"@, e);
    let s3 = replace_all(s2, "[tab]"@, e);
    let s4 = replace_all(s3, "[/tab]"@, e);
    let ok1 = |w: Seq<char>| ok(w) && w != "[ch]"@;
    let ok2 = |w: Seq<char>| ok1(w) && w != "[/ch]"@;
    let ok3 = |w: Seq<char>| ok2(w) && w != "[tab]"@;
    let ok4 = |w: Seq<char>| ok3(w) && w != "[/tab]"@;
    lemma_remove_group(l, "[ch]"@, 0, ok, ok1);
    lemma_remove_group(s1, "[/ch]"@, 0, ok1, ok2);
    lemma_remove_group(s2, "[tab]"@, 0, ok2, ok3);
    lemma_remove_group(s3, "[/tab]"@, 0, ok3, ok4);
    assert(s4 == without_tags(l));
    ok4
}

/// Cleaning removes every tag: when the brackets of a line pair up, its cleaned text holds
/// none of `[ch]`, `[/ch]`, `[tab]` and `[/tab]`, whatever the type of the line.
pub proof fn law_cleaned_line_holds_no_tags(l: Seq<char>, t: Seq<char>)
    requires
        brackets_pair_up(l),
        is_tag(t),
    ensures
        !contains(without_tags(l), t),
        !contains(evaluate_line(l, false).1, t),
{
    lemma_tags_are_bracket_words();
    let okc = lemma_without_tags_groups(l, |w: Seq<char>| true);
    let c = without_tags(l);
    lemma_find_from(c, t, 0);
    if let Some(j) = find_from(c, t, 0) {
        lemma_group_occurrence_ok(c, 0, okc, t, j);
    }
}

/// A line whose only brackets are those of its tags keeps no bracket once cleaned, so it is
/// never a section title.
pub proof fn law_tag_only_line_is_no_section_title(l: Seq<char>, replace_german_names: bool)
    requires
        only_tag_brackets(l),
    ensures
        forall|j: int| 0 <= j < without_tags(l).len() ==> !is_bracket(#[trigger] without_tags(l)[j]),
        line_type_of(l) != DataType::SectionTitle,
        evaluate_line(l, replace_german_names).0 != DataType::SectionTitle,
{
    let okc = lemma_without_tags_groups(l, |w: Seq<char>| is_tag(w));
    let c = without_tags(l);
    lemma_no_groups_no_brackets(c, 0, okc);
    reveal_strlit("[");
    assert(!c.contains('['));
    lemma_absent_first_char(c, "["@);
}

/// A line without `[ch]` whose brackets pair up and that holds a bracket group other than a
/// tag (such as `[Chorus]`) is a section title, and its cleaned text keeps that group.
pub proof fn law_bracketed_name_makes_section_title(l: Seq<char>, w: Seq<char>, j: int)
    requires
        brackets_pair_up(l),
        !contains(l, "[ch]"@),
        is_bracket_word(w),
        !is_tag(w),
        occurs_at(l, w, j),
    ensures
        contains(without_tags(l), w),
        line_type_of(l) == DataType::SectionTitle,
{
    lemma_tags_are_bracket_words();
    reveal_strlit("");
    reveal_strlit("[");
    reveal_strlit("]");
    assert(""@ =~= Seq::<char>::empty());
    let e = ""@;
    let yes = |v: Seq<char>| true;
    let s1 = replace_all(l, "[ch]"@, e);
    let s2 = replace_all(s1, "[/ch]"@, e);
    let s3 = replace_all(s2, "[tab]"@, e);
    let c = replace_all(s3, "[/tab]"@, e);
    assert(c == without_tags(l));
    lemma_remove_group(l, "[ch]"@, 0, yes, yes);
    lemma_remove_group(s1, "[/ch]"@, 0, yes, yes);
    lemma_remove_group(s2, "[tab]"@, 0, yes, yes);
    let k1 = lemma_remove_group_keeps(l, "[ch]"@, 0, yes, w, j);
    let k2 = lemma_remove_group_keeps(s1, "[/ch]"@, 0, yes, w, k1);
    let k3 = lemma_remove_group_keeps(s2, "[tab]"@, 0, yes, w, k2);
    let k = lemma_remove_group_keeps(s3, "[/tab]"@, 0, yes, w, k3);
    let n = w.len() - 1;
    assert(c.subrange(k, k + w.len())[0] == c[k]);
    assert(c.subrange(k, k + w.len())[n] == c[k + n]);
    assert(c.subrange(k, k + 1) =~= "["@);
    assert(c.subrange(k + n, k + n + 1) =~= "]"@);
    assert(occurs_at(c, "["@, k));
    assert(occurs_at(c, "]"@, k + n));
    lemma_find_from(c, w, 0);
    lemma_find_from(c, "["@, 0);
    lemma_find_from(c, "]"@, 0);
}

/// A line without brackets is a lyric line, and cleaning leaves its text as it is.
pub proof fn law_line_without_brackets_is_lyric(l: Seq<char>, replace_german_names: bool)
    requires
        forall|j: int| 0 <= j < l.len() ==> !is_bracket(#[trigger] l[j]),
    ensures
        evaluate_line(l, replace_german_names) == (DataType::Lyric, l),
{
    reveal_strlit("[ch]");
    reveal_strlit("[/ch]");
    reveal_strlit("[tab]");
    reveal_strlit("[/tab]");
    reveal_strlit("[");
    assert(!l.contains('['));
    lemma_absent_first_char(l, "[ch]"@);
    lemma_absent_first_char(l, "[/ch]"@);
    lemma_absent_first_char(l, "[tab]"@);
    lemma_absent_first_char(l, "[/tab]"@);
    lemma_absent_first_char(l, "["@);
    law_replace_absent_pattern(l, "[ch]"@, ""@);
    law_replace_absent_pattern(l, "[/ch]"@, ""@);
    law_replace_absent_pattern(l, "[tab]"@, ""@);
    law_replace_absent_pattern(l, "[/tab]"@, ""@);
    assert(without_tags(l) == l);
}

// ---------------------------------------------------------------------------
// Executable functions
// ---------------------------------------------------------------------------

/// Whether a page can be read as a tab; returns `Err(UGError::InvalidHTMLError)` if not.
pub fn validate_html(raw_html: &str) -> (r: Result<(), UGError>)
    ensures
        r == (if html_is_valid(raw_html@) {
            Ok::<(), UGError>(())
        } else {
            Err::<(), UGError>(UGError::InvalidHTMLError)
        }),
{
    let h = to_chars(raw_html);
    if validate_html_chars(h.as_slice()) {
        Ok(())
    } else {
        Err(UGError::InvalidHTMLError)
    }
}

fn validate_html_chars(h: &[char]) -> (b: bool)
    ensures
        b == html_is_valid(h@),
{
    let mut k: usize = 0;
    while k < HTML_BLACKLIST.len()
        invariant
            k <= HTML_BLACKLIST@.len(),
            forall|j: int| 0 <= j < k ==> !contains(h@, #[trigger] HTML_BLACKLIST@[j]@),
        decreases HTML_BLACKLIST@.len() - k,
    {
        if contains_str(h, HTML_BLACKLIST[k]) {
            return false;
        }
        k = k + 1;
    }
    contains_str(h, START_OF_CHORDS_DELIM) && contains_str(h, END_OF_CHORDS_DELIM)
}

/// Whether the start delimiter comes before the first end delimiter, as reading the tab's
/// lines needs it to.
pub fn tab_content_is_located(raw_html: &str) -> (b: bool)
    ensures
        b == tab_content_located(raw_html@),
{
    let h = to_chars(raw_html);
    let end = to_chars(END_OF_CHORDS_DELIM);
    let start = to_chars(START_OF_CHORDS_DELIM);
    let p0 = before_first_exec(h.as_slice(), end.as_slice());
    contains_exec(p0.as_slice(), start.as_slice())
}

/// Evaluates one raw line of a tab.
fn evaluate_line_exec(l: &[char], replace_german_names: bool) -> (line: Line)
    ensures
        line@ == evaluate_line(l@, replace_german_names),
{
    proof {
        reveal_strlit("[ch]");
        reveal_strlit("[/ch]");
        reveal_strlit("[tab]");
        reveal_strlit("[/tab]");
    }
    let is_chord = contains_str(l, "[ch]");
    let a = replace_str(l, "[ch]", "");
    let b = replace_str(a.as_slice(), "[/ch]", "");
    let c = replace_str(b.as_slice(), "[tab]", "");
    let d = replace_str(c.as_slice(), "[/tab]", "");
    assert(d@ == without_tags(l@));
    let mut line_type = DataType::Lyric;
    if is_chord {
        line_type = DataType::Chord;
    }
    if contains_str(d.as_slice(), "[") && contains_str(d.as_slice(), "]") && line_type
        != DataType::Chord {
        line_type = DataType::SectionTitle;
    }
    let mut line = Line { line_type, text_data: from_chars(d.as_slice()) };
    if replace_german_names {
        line = line.replace_german_names();
    }
    line
}

/// Evaluates raw lines of a tab.
fn evaluate_lines_exec(lines: &Vec<Vec<char>>, replace_german_names: bool) -> (r: Vec<Line>)
    ensures
        line_views(r@) == evaluate_lines(char_views(lines@), replace_german_names),
{
    let mut r: Vec<Line> = Vec::new();
    let mut i: usize = 0;
    while i < lines.len()
        invariant
            i <= lines@.len(),
            line_views(r@) == evaluate_lines(char_views(lines@), replace_german_names).take(
                i as int,
            ),
        decreases lines@.len() - i,
    {
        let line = evaluate_line_exec(lines[i].as_slice(), replace_german_names);
        let ghost before = r@;
        assert(char_views(lines@)[i as int] == lines@[i as int]@);
        assert(line@ == evaluate_lines(char_views(lines@), replace_german_names)[i as int]);
        r.push(line);
        assert(r@ == before.push(line));
        assert(line_views(r@) =~= line_views(before).push(line@));
        assert(evaluate_lines(char_views(lines@), replace_german_names).take(i + 1)
            =~= evaluate_lines(char_views(lines@), replace_german_names).take(i as int).push(
            line@,
        ));
        assert(line_views(r@) =~= evaluate_lines(char_views(lines@), replace_german_names).take(
            i + 1,
        ));
        i = i + 1;
    }
    assert(evaluate_lines(char_views(lines@), replace_german_names).take(lines@.len() as int)
        =~= evaluate_lines(char_views(lines@), replace_german_names));
    r
}

/// Evaluates the lines of a tab's text: tags are removed, each line gets its type, and German
/// chord names are replaced on chord lines if asked for.
pub fn clean_and_evaluate(text: &str, replace_german_names: bool) -> (r: Vec<Line>)
    ensures
        line_views(r@) == evaluate_lines(lines_of(text@), replace_german_names),
{
    let t = to_chars(text);
    let lines = split_lines(t.as_slice());
    evaluate_lines_exec(&lines, replace_german_names)
}

/// The lines of the tab in a page.
///
/// `replace_german_names` asks for German chord names to be replaced, as
/// [`crate::types::Line::replace_german_names`] does it. Returns
/// `UGError::InvalidHTMLError` for a page that cannot be read as a tab.
pub fn get_tab_lines(raw_html: &str, replace_german_names: bool) -> (r: Result<Vec<Line>, UGError>)
    requires
        html_is_valid(raw_html@) ==> tab_content_located(raw_html@),
    ensures
        match r {
            Ok(lines) => html_is_valid(raw_html@) && line_views(lines@) == tab_lines_of(
                raw_html@,
                replace_german_names,
            ),
            Err(e) => !html_is_valid(raw_html@) && e == UGError::InvalidHTMLError,
        },
{
    let h = to_chars(raw_html);
    if !validate_html_chars(h.as_slice()) {
        return Err(UGError::InvalidHTMLError);
    }
    let end = to_chars(END_OF_CHORDS_DELIM);
    let start = to_chars(START_OF_CHORDS_DELIM);
    let p0 = before_first_exec(h.as_slice(), end.as_slice());
    let after = after_first_exec(p0.as_slice(), start.as_slice());
    let raw_data = before_first_exec(after.as_slice(), start.as_slice());
    let raw_string = from_chars(raw_data.as_slice());
    let formatted = unescape_string(raw_string.as_str());
    Ok(clean_and_evaluate(formatted.as_str(), replace_german_names))
}

/// Checks that a URL leads to a tab on Ultimate Guitar; returns
/// `Err(UGError::InvalidURLError)` if not.
pub fn validate_link(url: &str) -> (r: Result<(), UGError>)
    ensures
        r == (if link_is_valid(url@) {
            Ok::<(), UGError>(())
        } else {
            Err::<(), UGError>(UGError::InvalidURLError)
        }),
{
    match regex_captures(VALID_LINK_REGEX, url) {
        Some(_) => Ok(()),
        None => Err(UGError::InvalidURLError),
    }
}

/// Basic data read out of the capture groups that `BASIC_DATA_REGEX` found in a page.
pub fn basic_data_from_captures(caps: &Vec<Option<String>>, tab_link: &str) -> (r: Result<
    BasicSongData,
    UGError,
>)
    ensures
        basic_result_view(r) == basic_data_from(caps.deep_view(), tab_link@),
{
    let type_label = group_string(caps, 5);
    let data_type = match get_data_type(type_label.as_str()) {
        Ok(t) => t,
        Err(_) => DataSetType::Unknown,
    };
    let tab_text = to_chars(group_string(caps, 1).as_str());
    let tab_id = match parse_u32(tab_text.as_slice()) {
        Some(i) => i,
        None => return Err(UGError::UnexpectedWebResultError),
    };
    let song_text = to_chars(group_string(caps, 2).as_str());
    let song_id = match parse_u32(song_text.as_slice()) {
        Some(i) => i,
        None => return Err(UGError::UnexpectedWebResultError),
    };
    let title = unescape_string(group_string(caps, 3).as_str());
    let artist = unescape_string(group_string(caps, 4).as_str());
    Ok(
        BasicSongData {
            title,
            artist,
            tab_link: String::from_str(tab_link),
            song_id,
            tab_id,
            data_type,
        },
    )
}

/// The basic metadata of the tab in a page.
///
/// Errors: `InvalidHTMLError` for a page that cannot be read as a tab, `InvalidURLError` for a
/// link that does not lead to a tab, `NoBasicDataMatchError` when the page holds no basic
/// data, and `UnexpectedWebResultError` when its IDs are not numbers.
pub fn get_basic_metadata(raw_html: &str, tab_link: &str) -> (r: Result<BasicSongData, UGError>)
    ensures
        basic_result_view(r) == basic_metadata_of(raw_html@, tab_link@),
{
    match validate_html(raw_html) {
        Ok(()) => {},
        Err(e) => return Err(e),
    }
    match validate_link(tab_link) {
        Ok(()) => {},
        Err(e) => return Err(e),
    }
    match regex_captures(BASIC_DATA_REGEX, raw_html) {
        Some(caps) => basic_data_from_captures(&caps, tab_link),
        None => Err(UGError::NoBasicDataMatchError),
    }
}

/// A captured text, or `None` when it is empty.
fn optional_string(s: String) -> (r: Option<String>)
    ensures
        r.deep_view() == optional_text(s@),
{
    if s.as_str().is_empty() {
        None
    } else {
        Some(s)
    }
}

/// Metadata read out of the capture groups that `METADATA_REGEX` found in a page.
pub fn metadata_from_captures(caps: &Vec<Option<String>>) -> (m: SongMetaData)
    ensures
        m@ == metadata_from(caps.deep_view()),
{
    SongMetaData {
        capo: optional_string(group_string(caps, 1)),
        tonality: optional_string(group_string(caps, 2)),
        tuning_name: optional_string(group_string(caps, 3)),
        tuning: optional_string(group_string(caps, 4)),
    }
}

/// The optional metadata (capo, tonality, tuning) of the tab in a page.
pub fn extract_metadata(raw_html: &str) -> (m: Option<SongMetaData>)
    ensures
        metadata_view(m) == metadata_of(raw_html@),
{
    match regex_captures(METADATA_REGEX, raw_html) {
        Some(caps) => Some(metadata_from_captures(&caps)),
        None => None,
    }
}

/// All the data about a tab that its page holds: its lines, its basic data and its metadata.
///
/// The page must be one downloaded from `url`. The error is the one that
/// [`get_basic_metadata`] gives for the page and link.
pub fn get_song_data(raw_html: &str, url: &str, replace_german_names: bool) -> (r: Result<
    Song,
    UGError,
>)
    requires
        html_is_valid(raw_html@) ==> tab_content_located(raw_html@),
    ensures
        match r {
            Ok(song) => {
                &&& basic_metadata_of(raw_html@, url@) == Ok::<BasicSongView, UGError>(
                    song.basic_data@,
                )
                &&& line_views(song.lines@) == tab_lines_of(raw_html@, replace_german_names)
                &&& metadata_view(song.metadata) == metadata_of(raw_html@)
            },
            Err(e) => basic_metadata_of(raw_html@, url@) == Err::<BasicSongView, UGError>(e),
        },
{
    let lines = match get_tab_lines(raw_html, replace_german_names) {
        Ok(l) => l,
        Err(e) => return Err(e),
    };
    match get_basic_metadata(raw_html, url) {
        Ok(d) => {
            let metadata = extract_metadata(raw_html);
            Ok(Song { lines, metadata, basic_data: d })
        },
        Err(e) => Err(e),
    }
}

} // verus!

//! Types shared across the crate, with the functions that belong to them.
use vstd::prelude::*;

use crate::error::UGError;
use crate::text::{
    lemma_guarded_replace_leaves_no_occurrence, occurs_unguarded, chars_equal, contains_unguarded, contains_unguarded_exec, from_chars, replace_all,
    replace_guarded_exec, replace_guarded_from, replace_str, to_chars,
};

verus! {

/// Known types of tab on Ultimate Guitar, the unsupported ones included.
#[derive(Debug, PartialEq, Default, Eq, Clone, Copy, Hash, Structural)]
pub enum DataSetType {
    #[default]
    Unknown,
    /// Downloading supported
    Chords,
    /// Downloading supported
    Tab,
    /// Downloading supported
    Ukulele,
    /// Downloading supported
    Bass,
    /// Downloading supported
    Drums,
    /// Downloading not supported
    Official,
    /// Downloading not supported
    Pro,
    /// Downloading not supported
    Power,
    /// Downloading not supported
    Video,
}

/// The tab types that can be downloaded: Chords, Tabs, Bass Tabs, Ukulele Chords and Drum Tabs.
pub const SUPPORTED_DOWNLOAD_TYPES: [DataSetType; 5] = [
    DataSetType::Chords,
    DataSetType::Tab,
    DataSetType::Bass,
    DataSetType::Ukulele,
    DataSetType::Drums,
];

/// Possible types of line in a `Song`.
#[derive(Debug, PartialEq, Eq, Default, Clone, Copy, Hash, Structural)]
pub enum DataType {
    /// Lines with chords marked by Ultimate Guitar
    #[default]
    Chord,
    /// Plain text
    Lyric,
    /// The title of a song section, such as \[chorus\] or \[intro\]
    SectionTitle,
}

/// A single line of a tab.
#[derive(Debug, PartialEq, Default, Clone)]
pub struct Line {
    /// Type of the data on the line
    pub line_type: DataType,
    /// The contents of the line as plain text
    pub text_data: String,
}

impl View for Line {
    type V = (DataType, Seq<char>);

    open spec fn view(&self) -> (DataType, Seq<char>) {
        (self.line_type, self.text_data@)
    }
}

/// The views of a sequence of lines.
pub open spec fn line_views(v: Seq<Line>) -> Seq<(DataType, Seq<char>)> {
    v.map_values(|l: Line| l@)
}

/// A full set of available data about a tab.
#[derive(Debug, PartialEq, Default, Clone)]
pub struct Song {
    /// All lines of the tab
    pub lines: Vec<Line>,
    /// The detailed metadata of the song; some types of tab (such as drum tabs) have none
    pub metadata: Option<SongMetaData>,
    /// Basic data about the tab
    pub basic_data: BasicSongData,
}

/// Basic metadata that every tab has.
#[derive(Debug, PartialEq, Default, Clone)]
pub struct BasicSongData {
    /// Title of the song
    pub title: String,
    /// Name of the artist
    pub artist: String,
    /// Link to the tab
    pub tab_link: String,
    /// ID of the song, shared by every tab of the song
    pub song_id: u32,
    /// ID of this one tab
    pub tab_id: u32,
    /// The type of tab
    pub data_type: DataSetType,
}

/// Metadata that not every tab has; each value may be missing.
#[derive(Debug, PartialEq, Default, Clone)]
pub struct SongMetaData {
    pub capo: Option<String>,
    pub tonality: Option<String>,
    pub tuning_name: Option<String>,
    pub tuning: Option<String>,
}

/// What a `BasicSongData` holds, with its strings as character sequences.
pub struct BasicSongView {
    pub title: Seq<char>,
    pub artist: Seq<char>,
    pub tab_link: Seq<char>,
    pub song_id: u32,
    pub tab_id: u32,
    pub data_type: DataSetType,
}

impl View for BasicSongData {
    type V = BasicSongView;

    open spec fn view(&self) -> BasicSongView {
        BasicSongView {
            title: self.title@,
            artist: self.artist@,
            tab_link: self.tab_link@,
            song_id: self.song_id,
            tab_id: self.tab_id,
            data_type: self.data_type,
        }
    }
}

/// What a `SongMetaData` holds, with its strings as character sequences.
pub struct SongMetaDataView {
    pub capo: Option<Seq<char>>,
    pub tonality: Option<Seq<char>>,
    pub tuning_name: Option<Seq<char>>,
    pub tuning: Option<Seq<char>>,
}

impl View for SongMetaData {
    type V = SongMetaDataView;

    open spec fn view(&self) -> SongMetaDataView {
        SongMetaDataView {
            capo: self.capo.deep_view(),
            tonality: self.tonality.deep_view(),
            tuning_name: self.tuning_name.deep_view(),
            tuning: self.tuning.deep_view(),
        }
    }
}

/// The view of optional metadata.
pub open spec fn metadata_view(m: Option<SongMetaData>) -> Option<SongMetaDataView> {
    match m {
        Some(d) => Some(d@),
        None => None,
    }
}

// ---------------------------------------------------------------------------
// Tab type labels
// ---------------------------------------------------------------------------

/// The tab type that a label found on Ultimate Guitar names, if it is a known label.
pub open spec fn data_type_of(label: Seq<char>) -> Option<DataSetType> {
    if label == "Chords"@ {
        Some(DataSetType::Chords)
    } else if label == "Tabs"@ {
        Some(DataSetType::Tab)
    } else if label == "Bass Tabs"@ {
        Some(DataSetType::Bass)
    } else if label == "Ukulele Chords"@ {
        Some(DataSetType::Ukulele)
    } else if label == "Drum Tabs"@ {
        Some(DataSetType::Drums)
    } else if label == "Official"@ {
        Some(DataSetType::Official)
    } else if label == "Pro"@ {
        Some(DataSetType::Pro)
    } else if label == "Power"@ {
        Some(DataSetType::Power)
    } else if label == "Video"@ {
        Some(DataSetType::Video)
    } else {
        None
    }
}

/// No known label is empty.
pub proof fn lemma_no_empty_label()
    ensures
        data_type_of(Seq::empty()) is None,
{
    reveal_strlit("Chords");
    assert("Chords"@.len() > 0);
    reveal_strlit("Tabs");
    assert("Tabs"@.len() > 0);
    reveal_strlit("Bass Tabs");
    assert("Bass Tabs"@.len() > 0);
    reveal_strlit("Ukulele Chords");
    assert("Ukulele Chords"@.len() > 0);
    reveal_strlit("Drum Tabs");
    assert("Drum Tabs"@.len() > 0);
    reveal_strlit("Official");
    assert("Official"@.len() > 0);
    reveal_strlit("Pro");
    assert("Pro"@.len() > 0);
    reveal_strlit("Power");
    assert("Power"@.len() > 0);
    reveal_strlit("Video");
    assert("Video"@.len() > 0);
}

/// Whether a string equals a label.
fn is_label(s: &[char], label: &str) -> (b: bool)
    ensures
        b == (s@ == label@),
{
    let l = to_chars(label);
    chars_equal(s, l.as_slice())
}

/// The data type named by a label scraped from Ultimate Guitar.
///
/// Known labels: Chords, Tabs, Bass Tabs, Ukulele Chords, Drum Tabs, Official, Pro, Power,
/// Video. Any other label gives `UGError::UnknownTypeError`.
pub fn get_data_type(type_string: &str) -> (r: Result<DataSetType, UGError>)
    ensures
        match data_type_of(type_string@) {
            Some(t) => r == Ok::<DataSetType, UGError>(t),
            None => r == Err::<DataSetType, UGError>(UGError::UnknownTypeError),
        },
{
    let s = to_chars(type_string);
    let s = s.as_slice();
    if is_label(s, "Chords") {
        Ok(DataSetType::Chords)
    } else if is_label(s, "Tabs") {
        Ok(DataSetType::Tab)
    } else if is_label(s, "Bass Tabs") {
        Ok(DataSetType::Bass)
    } else if is_label(s, "Ukulele Chords") {
        Ok(DataSetType::Ukulele)
    } else if is_label(s, "Drum Tabs") {
        Ok(DataSetType::Drums)
    } else if is_label(s, "Official") {
        Ok(DataSetType::Official)
    } else if is_label(s, "Pro") {
        Ok(DataSetType::Pro)
    } else if is_label(s, "Power") {
        Ok(DataSetType::Power)
    } else if is_label(s, "Video") {
        Ok(DataSetType::Video)
    } else {
        Err(UGError::UnknownTypeError)
    }
}

// ---------------------------------------------------------------------------
// German chord names
// ---------------------------------------------------------------------------

/// German chord names, in the order in which they are replaced.
pub open spec fn german_names() -> Seq<Seq<char>> {
    seq![
        "Ces"@, "Cis"@, "Des"@, "Dis"@, "Es"@, "Eis"@, "Fes"@, "Fis"@, "Ges"@, "Gis"@, "As"@,
        "Ais"@, "H"@, "Bes"@, "His"@, "Bis"@, "dur"@, "moll"@,
    ]
}

/// The English name that takes the place of each German name; the padding keeps
/// the chords above the lyrics in place.
pub open spec fn english_names() -> Seq<Seq<char>> {
    seq![
        "Cb "@, "C# "@, "Db "@, "D# "@, "Eb"@, "E# "@, "Fb "@, "F# "@, "Gb "@, "G# "@, "Ab"@,
        "A# "@, "B"@, "Bb "@, "B# "@, "B# "@, "maj"@, "m   "@,
    ]
}

/// What keeps an occurrence of a German name from being one: `Es` and `As` that begin the
/// suspended chords `Esus` and `Asus` are left alone. An empty guard keeps nothing.
pub open spec fn german_guards() -> Seq<Seq<char>> {
    seq![
        ""@, ""@, ""@, ""@, "Esus"@, ""@, ""@, ""@, ""@, ""@, "Asus"@, ""@, ""@, ""@, ""@, ""@,
        ""@, ""@,
    ]
}

/// The German name at position `k` of the table occurs in `t`.
pub open spec fn has_german_name_at(t: Seq<char>, k: int) -> bool {
    contains_unguarded(t, german_names()[k], german_guards()[k])
}

/// Whether any German chord name occurs in `t`.
pub open spec fn has_german_name(t: Seq<char>) -> bool {
    exists|k: int| 0 <= k < german_names().len() && #[trigger] has_german_name_at(t, k)
}

/// `t` after the first `n` replacements of the table, each applied to the result of the one before.
pub open spec fn replace_in_order(t: Seq<char>, n: int) -> Seq<char>
    decreases n,
{
    if n <= 0 {
        t
    } else {
        replace_guarded_from(
            replace_in_order(t, n - 1),
            german_names()[n - 1],
            german_guards()[n - 1],
            english_names()[n - 1],
            0,
        )
    }
}

/// The English form of a chord line: when a German name occurs in it, every `B` becomes `Bb`
/// (with one space of padding less after it), then each German name is replaced in turn.
pub open spec fn english_chord_names(t: Seq<char>) -> Seq<char> {
    if has_german_name(t) {
        let flats = replace_all(replace_all(t, "B"@, "Bb"@), "Bb  "@, "Bb "@);
        replace_in_order(flats, german_names().len() as int)
    } else {
        t
    }
}

/// A chord line in which no German chord name occurs keeps its text.
pub proof fn law_no_german_name_no_change(t: Seq<char>)
    requires
        !has_german_name(t),
    ensures
        english_chord_names(t) == t,
{
}

/// Every known label names a type other than `Unknown`, and no two known labels name the
/// same type.
pub proof fn law_labels_name_distinct_known_types(a: Seq<char>, b: Seq<char>)
    ensures
        data_type_of(a) matches Some(t) ==> t != DataSetType::Unknown,
        data_type_of(a) is Some && data_type_of(a) == data_type_of(b) ==> a == b,
{
}

/// The English letter for the letter of a German note name: `H` is `B`, the others stay.
pub open spec fn english_letter(c: char) -> char {
    if c == 'H' {
        'B'
    } else {
        c
    }
}

/// The English spelling of a German chord name: `dur` is `maj` and `moll` is `m`; a letter
/// alone is its English letter; a sharp (letter and `is`) is the letter and `#`; a flat
/// (letter and `es`, or letter and `s`) is the letter and `b`. Anything else keeps its text.
pub open spec fn english_spelling(g: Seq<char>) -> Seq<char> {
    if g == "dur"@ {
        "maj"@
    } else if g == "moll"@ {
        "m"@
    } else if g.len() == 1 {
        seq![english_letter(g[0])]
    } else if g.len() == 3 && g[1] == 'i' && g[2] == 's' {
        seq![english_letter(g[0]), '#']
    } else if (g.len() == 3 && g[1] == 'e' && g[2] == 's') || (g.len() == 2 && g[1] == 's') {
        seq![english_letter(g[0]), 'b']
    } else {
        g
    }
}

/// `n` spaces.
pub open spec fn spaces(n: int) -> Seq<char> {
    Seq::new(n as nat, |i: int| ' ')
}

/// Each German name is replaced by its English spelling, padded with spaces to the German
/// name's width so that the chords stay above the same syllables: `Cis` becomes `C# `, `Es`
/// becomes `Eb`, `H` becomes `B` and `moll` becomes `m` and three spaces.
pub proof fn law_english_names_spell_german_names()
    ensures
        english_names().len() == german_names().len(),
        forall|k: int|
            0 <= k < german_names().len() ==> #[trigger] english_names()[k] == english_spelling(
                german_names()[k],
            ) + spaces(german_names()[k].len() - english_spelling(german_names()[k]).len()),
{
    reveal_strlit("Ces");
    reveal_strlit("Cis");
    reveal_strlit("Des");
    reveal_strlit("Dis");
    reveal_strlit("Es");
    reveal_strlit("Eis");
    reveal_strlit("Fes");
    reveal_strlit("Fis");
    reveal_strlit("Ges");
    reveal_strlit("Gis");
    reveal_strlit("As");
    reveal_strlit("Ais");
    reveal_strlit("H");
    reveal_strlit("Bes");
    reveal_strlit("His");
    reveal_strlit("Bis");
    reveal_strlit("dur");
    reveal_strlit("moll");
    reveal_strlit("Cb ");
    reveal_strlit("C# ");
    reveal_strlit("Db ");
    reveal_strlit("D# ");
    reveal_strlit("Eb");
    reveal_strlit("E# ");
    reveal_strlit("Fb ");
    reveal_strlit("F# ");
    reveal_strlit("Gb ");
    reveal_strlit("G# ");
    reveal_strlit("Ab");
    reveal_strlit("A# ");
    reveal_strlit("B");
    reveal_strlit("Bb ");
    reveal_strlit("B# ");
    reveal_strlit("maj");
    reveal_strlit("m   ");
    reveal_strlit("m");
    let g = german_names();
    let e = english_names();
    assert forall|k: int| 0 <= k < 18 implies #[trigger] e[k] == english_spelling(g[k]) + spaces(
        g[k].len() - english_spelling(g[k]).len(),
    ) by {
        assert(k == 0 || k == 1 || k == 2 || k == 3 || k == 4 || k == 5 || k == 6 || k == 7 || k
            == 8 || k == 9 || k == 10 || k == 11 || k == 12 || k == 13 || k == 14 || k == 15 || k
            == 16 || k == 17);
        assert(e[k] =~= english_spelling(g[k]) + spaces(g[k].len() - english_spelling(g[k]).len()));
    }
}

/// The names `Es` and `As` are kept where they begin a suspended chord (`Esus`, `Asus`); no
/// other name has a guard.
pub proof fn law_suspended_chords_are_guarded()
    ensures
        german_guards().len() == german_names().len(),
        forall|k: int|
            0 <= k < german_names().len() ==> #[trigger] german_guards()[k] == (if german_names()[k]
                == "Es"@ || german_names()[k] == "As"@ {
                german_names()[k] + "us"@
            } else {
                Seq::empty()
            }),
{
    reveal_strlit("Ces");
    reveal_strlit("Cis");
    reveal_strlit("Des");
    reveal_strlit("Dis");
    reveal_strlit("Es");
    reveal_strlit("Eis");
    reveal_strlit("Fes");
    reveal_strlit("Fis");
    reveal_strlit("Ges");
    reveal_strlit("Gis");
    reveal_strlit("As");
    reveal_strlit("Ais");
    reveal_strlit("H");
    reveal_strlit("Bes");
    reveal_strlit("His");
    reveal_strlit("Bis");
    reveal_strlit("dur");
    reveal_strlit("moll");
    reveal_strlit("Esus");
    reveal_strlit("Asus");
    reveal_strlit("us");
    reveal_strlit("");
    let g = german_names();
    let u = german_guards();
    assert forall|k: int| 0 <= k < 18 implies #[trigger] u[k] == (if g[k] == "Es"@ || g[k] == "As"@ {
        g[k] + "us"@
    } else {
        Seq::empty()
    }) by {
        assert(k == 0 || k == 1 || k == 2 || k == 3 || k == 4 || k == 5 || k == 6 || k == 7 || k
            == 8 || k == 9 || k == 10 || k == 11 || k == 12 || k == 13 || k == 14 || k == 15 || k
            == 16 || k == 17);
        assert(u[k] =~= (if g[k] == "Es"@ || g[k] == "As"@ {
            g[k] + "us"@
        } else {
            Seq::empty()
        }));
    }
}

/// The characters that German chord names hold after their first character.
pub open spec fn is_name_tail_char(c: char) -> bool {
    c == 'e' || c == 'i' || c == 's' || c == 'u' || c == 'r' || c == 'o' || c == 'l'
}

/// The character facts about one German name that the replacement relies on.
spec fn german_name_shape(q: Seq<char>) -> bool {
    &&& q.len() > 0
    &&& !is_name_tail_char(q[0])
    &&& q[0] != ' ' && q[0] != 'b' && q[0] != 'j'
    &&& forall|m: int| 1 <= m < q.len() ==> #[trigger] is_name_tail_char(q[m])
    &&& q.len() == 1 ==> q[0] == 'H'
}

/// The character facts about one English name that the replacement relies on.
spec fn english_name_shape(r: Seq<char>) -> bool {
    &&& r.len() > 0
    &&& forall|m: int| 0 <= m < r.len() ==> !#[trigger] is_name_tail_char(r[m]) && r[m] != 'H'
    &&& r.last() == ' ' || r.last() == 'b' || r.last() == 'B' || r.last() == 'j'
}

/// The character facts about one guard that the replacement relies on.
spec fn guard_shape(h: Seq<char>) -> bool {
    h.len() > 0 ==> forall|m: int| 1 <= m < h.len() ==> #[trigger] is_name_tail_char(h[m])
}

/// The tables have the shapes that the replacement relies on.
proof fn lemma_table_shapes()
    ensures
        german_names().len() == 18,
        english_names().len() == 18,
        german_guards().len() == 18,
        forall|k: int| 0 <= k < 18 ==> german_name_shape(#[trigger] german_names()[k]),
        forall|k: int| 0 <= k < 18 ==> english_name_shape(#[trigger] english_names()[k]),
        forall|k: int| 0 <= k < 18 ==> guard_shape(#[trigger] german_guards()[k]),
        forall|k: int| 0 <= k < 18 && (#[trigger] german_names()[k])[0] == 'B' ==> k >= 13,
        forall|k: int| 0 <= k < 18 && (#[trigger] english_names()[k]).last() == 'B' ==> k == 12,
{
    reveal_strlit("Ces");
    reveal_strlit("Cis");
    reveal_strlit("Des");
    reveal_strlit("Dis");
    reveal_strlit("Es");
    reveal_strlit("Eis");
    reveal_strlit("Fes");
    reveal_strlit("Fis");
    reveal_strlit("Ges");
    reveal_strlit("Gis");
    reveal_strlit("As");
    reveal_strlit("Ais");
    reveal_strlit("H");
    reveal_strlit("Bes");
    reveal_strlit("His");
    reveal_strlit("Bis");
    reveal_strlit("dur");
    reveal_strlit("moll");
    reveal_strlit("Cb ");
    reveal_strlit("C# ");
    reveal_strlit("Db ");
    reveal_strlit("D# ");
    reveal_strlit("Eb");
    reveal_strlit("E# ");
    reveal_strlit("Fb ");
    reveal_strlit("F# ");
    reveal_strlit("Gb ");
    reveal_strlit("G# ");
    reveal_strlit("Ab");
    reveal_strlit("A# ");
    reveal_strlit("B");
    reveal_strlit("Bb ");
    reveal_strlit("B# ");
    reveal_strlit("maj");
    reveal_strlit("m   ");
    reveal_strlit("Esus");
    reveal_strlit("Asus");
    reveal_strlit("");
    let g = german_names();
    let e = english_names();
    let u = german_guards();
    assert forall|k: int| 0 <= k < 18 implies german_name_shape(#[trigger] g[k]) by {
        assert(k == 0 || k == 1 || k == 2 || k == 3 || k == 4 || k == 5 || k == 6 || k == 7 || k
            == 8 || k == 9 || k == 10 || k == 11 || k == 12 || k == 13 || k == 14 || k == 15 || k
            == 16 || k == 17);
    }
    assert forall|k: int| 0 <= k < 18 implies english_name_shape(#[trigger] e[k]) by {
        assert(k == 0 || k == 1 || k == 2 || k == 3 || k == 4 || k == 5 || k == 6 || k == 7 || k
            == 8 || k == 9 || k == 10 || k == 11 || k == 12 || k == 13 || k == 14 || k == 15 || k
            == 16 || k == 17);
    }
    assert forall|k: int| 0 <= k < 18 implies guard_shape(#[trigger] u[k]) by {
        assert(k == 0 || k == 1 || k == 2 || k == 3 || k == 4 || k == 5 || k == 6 || k == 7 || k
            == 8 || k == 9 || k == 10 || k == 11 || k == 12 || k == 13 || k == 14 || k == 15 || k
            == 16 || k == 17);
    }
    assert forall|k: int| 0 <= k < 18 && (#[trigger] g[k])[0] == 'B' implies k >= 13 by {
        assert(k == 0 || k == 1 || k == 2 || k == 3 || k == 4 || k == 5 || k == 6 || k == 7 || k
            == 8 || k == 9 || k == 10 || k == 11 || k == 12 || k == 13 || k == 14 || k == 15 || k
            == 16 || k == 17);
    }
    assert forall|k: int| 0 <= k < 18 && (#[trigger] e[k]).last() == 'B' implies k == 12 by {
        assert(k == 0 || k == 1 || k == 2 || k == 3 || k == 4 || k == 5 || k == 6 || k == 7 || k
            == 8 || k == 9 || k == 10 || k == 11 || k == 12 || k == 13 || k == 14 || k == 15 || k
            == 16 || k == 17);
    }
}

/// After the first `n` replacements of the table, none of the first `n` German names occurs.
proof fn lemma_replace_in_order_clears(t: Seq<char>, n: int)
    requires
        0 <= n <= 18,
    ensures
        forall|k: int| 0 <= k < n ==> !#[trigger] has_german_name_at(replace_in_order(t, n), k),
    decreases n,
{
    if n > 0 {
        lemma_replace_in_order_clears(t, n - 1);
        lemma_table_shapes();
        let j = n - 1;
        let before = replace_in_order(t, j);
        let after = replace_in_order(t, n);
        let p = german_names()[j];
        let g = german_guards()[j];
        let r = english_names()[j];
        assert(german_name_shape(p));
        assert(english_name_shape(r));
        let tail = |c: char| is_name_tail_char(c);
        assert forall|k: int| 0 <= k < n implies !#[trigger] has_german_name_at(after, k) by {
            let q = german_names()[k];
            let h = german_guards()[k];
            assert(german_name_shape(q));
            assert(guard_shape(h));
            assert forall|i: int| 0 <= i && #[trigger] occurs_unguarded(before, q, h, i) implies occurs_unguarded(
                before,
                p,
                g,
                i,
            ) by {
                if k < j {
                    assert(has_german_name_at(before, k));
                }
            }
            if r.last() == 'B' {
                assert(j == 12);
            }
            assert(q[0] != r.last());
            if q.len() == 1 {
                assert forall|m: int| 0 <= m < r.len() implies #[trigger] r[m] != q[0] by {
                    assert(r[m] != 'H');
                }
            }
            assert forall|m: int| 1 <= m < q.len() implies #[trigger] tail(q[m]) by {
                assert(is_name_tail_char(q[m]));
            }
            assert forall|m: int| 0 <= m < r.len() implies !#[trigger] tail(r[m]) by {
                assert(!is_name_tail_char(r[m]));
            }
            if h.len() > 0 {
                assert forall|m: int| 1 <= m < h.len() implies #[trigger] tail(h[m]) by {
                    assert(is_name_tail_char(h[m]));
                }
            }
            lemma_guarded_replace_leaves_no_occurrence(before, p, g, r, 0, q, h, tail);
            assert(after == crate::text::replace_guarded_from(before, p, g, r, 0));
        }
    }
}

/// Replacing German chord names a second time changes nothing: what the first replacement
/// leaves holds no German name.
pub proof fn law_german_names_replaced_once_for_all(t: Seq<char>)
    ensures
        english_chord_names(english_chord_names(t)) == english_chord_names(t),
{
    if has_german_name(t) {
        let flats = replace_all(replace_all(t, "B"@, "Bb"@), "Bb  "@, "Bb "@);
        lemma_table_shapes();
        lemma_replace_in_order_clears(flats, 18);
        let u = english_chord_names(t);
        assert(u == replace_in_order(flats, 18));
        assert(!has_german_name(u));
    }
}

/// The German names are all non-empty.
proof fn lemma_german_names_nonempty()
    ensures
        german_names().len() == 18,
        english_names().len() == 18,
        german_guards().len() == 18,
        forall|k: int| 0 <= k < 18 ==> #[trigger] german_names()[k].len() > 0,
{
    reveal_strlit("Ces");
    reveal_strlit("Cis");
    reveal_strlit("Des");
    reveal_strlit("Dis");
    reveal_strlit("Es");
    reveal_strlit("Eis");
    reveal_strlit("Fes");
    reveal_strlit("Fis");
    reveal_strlit("Ges");
    reveal_strlit("Gis");
    reveal_strlit("As");
    reveal_strlit("Ais");
    reveal_strlit("H");
    reveal_strlit("Bes");
    reveal_strlit("His");
    reveal_strlit("Bis");
    reveal_strlit("dur");
    reveal_strlit("moll");
}

/// The German name at position `i` of the table.
fn german_name(i: usize) -> (s: &'static str)
    requires
        i < 18,
    ensures
        s@ == german_names()[i as int],
{
    match i {
        0 => "Ces",
        1 => "Cis",
        2 => "Des",
        3 => "Dis",
        4 => "Es",
        5 => "Eis",
        6 => "Fes",
        7 => "Fis",
        8 => "Ges",
        9 => "Gis",
        10 => "As",
        11 => "Ais",
        12 => "H",
        13 => "Bes",
        14 => "His",
        15 => "Bis",
        16 => "dur",
        _ => "moll",
    }
}

/// The guard at position `i` of the table.
fn german_guard(i: usize) -> (s: &'static str)
    requires
        i < 18,
    ensures
        s@ == german_guards()[i as int],
{
    match i {
        4 => "Esus",
        10 => "Asus",
        _ => "",
    }
}

/// The English name at position `i` of the table.
fn english_name(i: usize) -> (s: &'static str)
    requires
        i < 18,
    ensures
        s@ == english_names()[i as int],
{
    match i {
        0 => "Cb ",
        1 => "C# ",
        2 => "Db ",
        3 => "D# ",
        4 => "Eb",
        5 => "E# ",
        6 => "Fb ",
        7 => "F# ",
        8 => "Gb ",
        9 => "G# ",
        10 => "Ab",
        11 => "A# ",
        12 => "B",
        13 => "Bb ",
        14 => "B# ",
        15 => "B# ",
        16 => "maj",
        _ => "m   ",
    }
}

/// Replaces German chord names in the characters of a chord line.
pub fn english_chord_names_exec(t: &[char]) -> (r: Vec<char>)
    ensures
        r@ == english_chord_names(t@),
{
    proof {
        lemma_german_names_nonempty();
    }
    let mut found = false;
    let mut k: usize = 0;
    while k < 18
        invariant
            k <= 18,
            german_names().len() == 18,
            german_guards().len() == 18,
            found <==> exists|j: int| 0 <= j < k && #[trigger] has_german_name_at(t@, j),
        decreases 18 - k,
    {
        let p = to_chars(german_name(k));
        let g = to_chars(german_guard(k));
        let here = contains_unguarded_exec(t, p.as_slice(), g.as_slice());
        assert(here == has_german_name_at(t@, k as int));
        if here {
            found = true;
        }
        k = k + 1;
    }
    if !found {
        let mut r: Vec<char> = Vec::new();
        crate::text::push_all(&mut r, t);
        assert(r@ =~= t@);
        return r;
    }
    proof {
        reveal_strlit("B");
        reveal_strlit("Bb  ");
    }
    let flats = replace_str(t, "B", "Bb");
    let mut text = replace_str(flats.as_slice(), "Bb  ", "Bb ");
    let ghost start = text@;
    let mut i: usize = 0;
    while i < 18
        invariant
            i <= 18,
            german_names().len() == 18,
            english_names().len() == 18,
            german_guards().len() == 18,
            forall|j: int| 0 <= j < 18 ==> #[trigger] german_names()[j].len() > 0,
            text@ == replace_in_order(start, i as int),
        decreases 18 - i,
    {
        let p = to_chars(german_name(i));
        let g = to_chars(german_guard(i));
        let r = to_chars(english_name(i));
        assert(german_names()[i as int].len() > 0);
        text = replace_guarded_exec(text.as_slice(), p.as_slice(), g.as_slice(), r.as_slice());
        i = i + 1;
    }
    text
}

impl Line {
    /// Replaces German chord names with English ones.
    ///
    /// On a chord line that holds a German chord name (such as `H`, `Fis` or `Dmoll`), every
    /// `B` first becomes `Bb`, and then each German name is replaced by its English
    /// equivalent; `Esus` and `Asus` are suspended chords, not German names, and stay.
    /// Other lines are returned as they are.
    pub fn replace_german_names(self) -> (l: Line)
        ensures
            l.line_type == self.line_type,
            l.text_data@ == (if self.line_type == DataType::Chord {
                english_chord_names(self.text_data@)
            } else {
                self.text_data@
            }),
    {
        if self.line_type == DataType::Chord {
            let t = to_chars(self.text_data.as_str());
            let r = english_chord_names_exec(t.as_slice());
            Line { line_type: self.line_type, text_data: from_chars(r.as_slice()) }
        } else {
            self
        }
    }
}

} // verus!

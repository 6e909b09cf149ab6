use ug_scraper::error::UGError;
use ug_scraper::tab_scraper::{
    clean_and_evaluate, extract_metadata, get_basic_metadata, get_song_data, get_tab_lines,
    tab_content_is_located, validate_html, validate_link, END_OF_CHORDS_DELIM,
    START_OF_CHORDS_DELIM,
};
use ug_scraper::types::{DataSetType, DataType, Line, SongMetaData};

const LINK: &str = "https://tabs.ultimate-guitar.com/tab/rick-astley/never-gonna-give-you-up-chords-521741";

fn basic_block(id: &str, song_id: &str, title: &str, artist: &str, kind: &str) -> String {
    format!(
        "tab&quot;:{{&quot;id&quot;:{},&quot;song_id&quot;:{},&quot;song_name&quot;:&quot;{}&quot;,&quot;artist_id&quot;:4242,&quot;artist_name&quot;:&quot;{}&quot;,&quot;type&quot;:&quot;{}&quot;,&quot;part&quot;:&quot;&quot;",
        id, song_id, title, artist, kind
    )
}

fn meta_block(capo: &str, tuning_name: &str, tuning: &str) -> String {
    format!(
        "&quot;adsupp_binary_blocked&quot;:null,&quot;meta&quot;:{{&quot;capo&quot;:{},&quot;tuning&quot;:{{&quot;name&quot;:&quot;{}&quot;,&quot;value&quot;:&quot;{}&quot;,&quot;index&quot;:1}}",
        capo, tuning_name, tuning
    )
}

fn page(content: &str, extra: &str) -> String {
    format!(
        "<html><div data-content=\"{{&quot;store&quot;{}{}{}1234,{}}}\"></div></html>",
        START_OF_CHORDS_DELIM, content, END_OF_CHORDS_DELIM, extra
    )
}

fn full_page() -> String {
    let content = "[Intro]\\r\\n[ch]Am[/ch]  [ch]H[/ch]\\r\\nNever gonna give you &quot;up&quot;\\r\\n";
    let extra = format!(
        "{},{}",
        basic_block("521741", "196324", "Never Gonna Give You Up", "Rick Astley", "Chords"),
        meta_block("1", "Standard", "E A D G B E")
    );
    page(content, &extra)
}

#[test]
fn tab_link_validation() {
    assert_eq!(validate_link("https://tabs.ultimate-guitar.com/tab/rick-astley/never-gonna-give-you-up-chords-521741"), Ok(()));
    assert_ne!(validate_link("tabs.ultimate-guitar.com/tab/refused/rather-be-dead-power-595658"), Ok(()));
}

#[test]
fn link_validation_other_forms() {
    assert_eq!(validate_link("https://tabs.ultimate-guitar.com/tab/367279"), Ok(()));
    assert_eq!(validate_link("http://www.ultimate-guitar.com/tab/x"), Ok(()));
    assert_eq!(validate_link("https://www.youtube.com/watch?v=dQw4w9WgXcQ"), Err(UGError::InvalidURLError));
    assert_eq!(validate_link(""), Err(UGError::InvalidURLError));
}

#[test]
fn html_validation() {
    assert_eq!(validate_html(&full_page()), Ok(()));
    assert_eq!(validate_html("<html></html>"), Err(UGError::InvalidHTMLError));
    let video = format!("{}&quot;type&quot;:&quot;Video&quot;", full_page());
    assert_eq!(validate_html(&video), Err(UGError::InvalidHTMLError));
    let no_end = format!("{}text", START_OF_CHORDS_DELIM);
    assert_eq!(validate_html(&no_end), Err(UGError::InvalidHTMLError));
    let no_start = format!("text{}", END_OF_CHORDS_DELIM);
    assert_eq!(validate_html(&no_start), Err(UGError::InvalidHTMLError));
}

#[test]
fn tab_content_location() {
    assert!(tab_content_is_located(&full_page()));
    let reversed = format!("{}x{}", END_OF_CHORDS_DELIM, START_OF_CHORDS_DELIM);
    assert!(!tab_content_is_located(&reversed));
}

#[test]
fn tab_lines_with_german_names() {
    let lines = get_tab_lines(&full_page(), true).unwrap();
    assert_eq!(
        lines,
        vec![
            Line { line_type: DataType::SectionTitle, text_data: "[Intro]".to_string() },
            Line { line_type: DataType::Chord, text_data: "Am  B".to_string() },
            Line { line_type: DataType::Lyric, text_data: "Never gonna give you \"up\"".to_string() },
        ]
    );
}

#[test]
fn tab_lines_without_german_names() {
    let lines = get_tab_lines(&full_page(), false).unwrap();
    assert_eq!(lines[1], Line { line_type: DataType::Chord, text_data: "Am  H".to_string() });
    assert_eq!(lines.len(), 3);
}

#[test]
fn tab_lines_of_invalid_page() {
    assert_eq!(get_tab_lines("nothing here", true), Err(UGError::InvalidHTMLError));
}

#[test]
fn tab_lines_stop_at_second_start() {
    let content = format!("one\\ntwo{}three", START_OF_CHORDS_DELIM);
    let lines = get_tab_lines(&page(&content, ""), false).unwrap();
    assert_eq!(lines.len(), 2);
    assert_eq!(lines[0].text_data, "one");
    assert_eq!(lines[1].text_data, "two");
}

#[test]
fn evaluation_of_lines() {
    let lines = clean_and_evaluate("[tab][ch]C[/ch] [ch]Fis[/ch][/tab]\n[Verse 1]\r\nplain [text\n\nlast\r", true);
    assert_eq!(
        lines,
        vec![
            Line { line_type: DataType::Chord, text_data: "C F# ".to_string() },
            Line { line_type: DataType::SectionTitle, text_data: "[Verse 1]".to_string() },
            Line { line_type: DataType::Lyric, text_data: "plain [text".to_string() },
            Line { line_type: DataType::Lyric, text_data: "".to_string() },
            Line { line_type: DataType::Lyric, text_data: "last\r".to_string() },
        ]
    );
}

#[test]
fn chord_line_with_brackets_stays_chord() {
    let lines = clean_and_evaluate("[ch]C[/ch] [x]", false);
    assert_eq!(lines, vec![Line { line_type: DataType::Chord, text_data: "C [x]".to_string() }]);
}

#[test]
fn evaluation_of_empty_text() {
    assert_eq!(clean_and_evaluate("", true), Vec::<Line>::new());
    assert_eq!(clean_and_evaluate("a\n", false).len(), 1);
}

#[test]
fn basic_metadata_read() {
    let data = get_basic_metadata(&full_page(), LINK).unwrap();
    assert_eq!(data.title, "Never Gonna Give You Up");
    assert_eq!(data.artist, "Rick Astley");
    assert_eq!(data.tab_link, LINK);
    assert_eq!(data.song_id, 196324);
    assert_eq!(data.tab_id, 521741);
    assert_eq!(data.data_type, DataSetType::Chords);
}

#[test]
fn basic_metadata_unescaped_and_unknown_type() {
    let extra = basic_block("367279", "1577513", "Zu Sp&auml;t", "Die &Auml;rzte", "Weird Kind");
    let data = get_basic_metadata(&page("x", &extra), "https://tabs.ultimate-guitar.com/tab/367279").unwrap();
    assert_eq!(data.title, "Zu Spät");
    assert_eq!(data.artist, "Die Ärzte");
    assert_eq!(data.data_type, DataSetType::Unknown);
}

#[test]
fn basic_metadata_errors() {
    assert_eq!(get_basic_metadata("no page", LINK), Err(UGError::InvalidHTMLError));
    assert_eq!(get_basic_metadata(&full_page(), "https://example.com"), Err(UGError::InvalidURLError));
    assert_eq!(get_basic_metadata(&page("x", ""), LINK), Err(UGError::NoBasicDataMatchError));
    let huge = basic_block("99999999999", "1", "T", "A", "Tabs");
    assert_eq!(get_basic_metadata(&page("x", &huge), LINK), Err(UGError::UnexpectedWebResultError));
}

#[test]
fn metadata_read() {
    assert_eq!(
        extract_metadata(&full_page()),
        Some(SongMetaData {
            capo: Some("1".to_string()),
            tonality: None,
            tuning_name: Some("Standard".to_string()),
            tuning: Some("E A D G B E".to_string()),
        })
    );
    assert_eq!(extract_metadata(&page("x", "")), None);
}

#[test]
fn song_data_read() {
    let song = get_song_data(&full_page(), LINK, true).unwrap();
    assert_eq!(song.lines.len(), 3);
    assert_eq!(song.lines[1].text_data, "Am  B");
    assert_eq!(song.basic_data.tab_id, 521741);
    assert_eq!(song.metadata.unwrap().capo, Some("1".to_string()));
}

#[test]
fn song_data_errors() {
    assert_eq!(get_song_data("nothing", LINK, false), Err(UGError::InvalidHTMLError));
    assert_eq!(get_song_data(&full_page(), "bad link", false), Err(UGError::InvalidURLError));
    assert_eq!(get_song_data(&page("x", ""), LINK, false), Err(UGError::NoBasicDataMatchError));
}

use ug_scraper::error::UGError;
use ug_scraper::types::{get_data_type, DataSetType, DataType, Line, SUPPORTED_DOWNLOAD_TYPES};

#[test]
fn german_names_replacement() {
    let german_line: Line = Line {
        line_type: DataType::Chord,
        text_data: "A    H      C Dmoll    Fis Es B  B".to_string(),
    };
    let english_line: Line = Line {
        line_type: DataType::Chord,
        text_data: "A    B      C Dm       F#  Eb Bb Bb".to_string(),
    };
    assert_eq!(german_line.replace_german_names().text_data, english_line.text_data);
}

#[test]
fn german_names_documented_example() {
    let line = Line {
        line_type: DataType::Chord,
        text_data: "A    H      C Dmoll    Fis Es B".to_string(),
    };
    assert_eq!(line.replace_german_names().text_data, "A    B      C Dm       F#  Eb Bb");
}

#[test]
fn german_names_esus_and_asus_kept() {
    let line = Line { line_type: DataType::Chord, text_data: "Esus4 Asus2 H".to_string() };
    let replaced = line.replace_german_names();
    assert_eq!(replaced.text_data, "Esus4 Asus2 B");
}

#[test]
fn german_names_only_on_chord_lines() {
    let lyric = Line { line_type: DataType::Lyric, text_data: "Hes Fis moll".to_string() };
    let replaced = lyric.clone().replace_german_names();
    assert_eq!(replaced, lyric);
    let title = Line { line_type: DataType::SectionTitle, text_data: "[H]".to_string() };
    assert_eq!(title.clone().replace_german_names(), title);
}

#[test]
fn chord_line_without_german_names_unchanged() {
    let line = Line { line_type: DataType::Chord, text_data: "Am  B   C  G".to_string() };
    assert_eq!(line.clone().replace_german_names(), line);
}

#[test]
fn german_minor_and_major_words() {
    let line = Line { line_type: DataType::Chord, text_data: "Cdur Amoll Gis".to_string() };
    assert_eq!(line.replace_german_names().text_data, "Cmaj Am    G# ");
}

#[test]
fn data_type_labels() {
    assert_eq!(get_data_type("Chords"), Ok(DataSetType::Chords));
    assert_eq!(get_data_type("Tabs"), Ok(DataSetType::Tab));
    assert_eq!(get_data_type("Bass Tabs"), Ok(DataSetType::Bass));
    assert_eq!(get_data_type("Ukulele Chords"), Ok(DataSetType::Ukulele));
    assert_eq!(get_data_type("Drum Tabs"), Ok(DataSetType::Drums));
    assert_eq!(get_data_type("Official"), Ok(DataSetType::Official));
    assert_eq!(get_data_type("Pro"), Ok(DataSetType::Pro));
    assert_eq!(get_data_type("Power"), Ok(DataSetType::Power));
    assert_eq!(get_data_type("Video"), Ok(DataSetType::Video));
}

#[test]
fn data_type_unknown_labels() {
    assert_eq!(get_data_type("chords"), Err(UGError::UnknownTypeError));
    assert_eq!(get_data_type(""), Err(UGError::UnknownTypeError));
    assert_eq!(get_data_type("Chords "), Err(UGError::UnknownTypeError));
    assert_eq!(get_data_type("Unknown"), Err(UGError::UnknownTypeError));
}

#[test]
fn supported_download_types() {
    assert_eq!(
        SUPPORTED_DOWNLOAD_TYPES,
        [DataSetType::Chords, DataSetType::Tab, DataSetType::Bass, DataSetType::Ukulele, DataSetType::Drums]
    );
    assert_eq!(DataSetType::default(), DataSetType::Unknown);
    assert_eq!(DataType::default(), DataType::Chord);
}

#[test]
fn error_messages() {
    assert_eq!(UGError::InvalidHTMLError.to_string(), "The type of this page is not readable for this API.");
    assert_eq!(UGError::InvalidURLError.to_string(), "The URL does not match any known UG sites.");
    assert_eq!(UGError::NoBasicDataMatchError.to_string(), "Could not find any basic data for the page.");
    assert_eq!(UGError::UnexpectedWebResultError.to_string(), "Failed to analyze downloaded results.");
    assert_eq!(UGError::UnknownTypeError.to_string(), "The type supplied by UG is not known.");
}

#[test]
fn suspended_chords_are_no_german_names() {
    let line = Line { line_type: DataType::Chord, text_data: "Esus4 B".to_string() };
    assert_eq!(line.clone().replace_german_names(), line);
    let mixed = Line { line_type: DataType::Chord, text_data: "Es Esus As Asus".to_string() };
    assert_eq!(mixed.replace_german_names().text_data, "Eb Esus Ab Asus");
}

#[test]
fn german_names_replaced_once_for_all() {
    for text in ["A    H      C Dmoll    Fis Es B  B", "Hes His Bis Gis Ais", "Cdur Amoll Esus H", "Ces Des Fes Ges Bes"] {
        let once = Line { line_type: DataType::Chord, text_data: text.to_string() }.replace_german_names();
        let twice = once.clone().replace_german_names();
        assert_eq!(twice, once);
    }
}

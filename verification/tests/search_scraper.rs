use ug_scraper::search_scraper::{is_page_missing, search_page_hits, search_url, SearchProgress, BASE_SEARCH_URL};
use ug_scraper::types::DataSetType;

fn entry(id: &str, song_id: &str, title: &str, kind: &str, votes: &str, rating: &str) -> String {
    format!(
        "{{&quot;id&quot;:{},&quot;song_id&quot;:{},&quot;song_name&quot;:&quot;{}&quot;,&quot;artist_name&quot;:&quot;Rick Astley&quot;,&quot;type&quot;:&quot;{}&quot;,&quot;part&quot;:&quot;&quot;,&quot;votes&quot;:{},&quot;rating&quot;:{},&quot;tab_url&quot;:&quot;https://tabs.ultimate-guitar.com/tab/rick-astley/song-{}&quot;}}",
        id, song_id, title, kind, votes, rating, id
    )
}

#[test]
fn search_address() {
    assert_eq!(
        search_url("Never gonna give you up", 1),
        format!("{}Never%20gonna%20give%20you%20up&page=1", BASE_SEARCH_URL)
    );
    assert_eq!(search_url("a&b", 12), format!("{}a&amp;b&page=12", BASE_SEARCH_URL));
    assert_eq!(search_url("", 255), format!("{}&page=255", BASE_SEARCH_URL));
    assert_eq!(search_url("x", 0), format!("{}x&page=0", BASE_SEARCH_URL));
}

#[test]
fn missing_pages() {
    assert!(is_page_missing(Some(404)));
    assert!(!is_page_missing(Some(500)));
    assert!(!is_page_missing(None));
}

#[test]
fn result_page_read() {
    let html = format!("[{},{}]", entry("521741", "196324", "Never Gonna Give You Up", "Chords", "1234", "4.8"), entry("1381967", "317511", "Other", "Tabs", "7", "3"));
    let hits = search_page_hits(&html).unwrap();
    assert_eq!(hits.len(), 2);
    assert_eq!(hits[0].basic_data.tab_id, 521741);
    assert_eq!(hits[0].basic_data.song_id, 196324);
    assert_eq!(hits[0].basic_data.title, "Never Gonna Give You Up");
    assert_eq!(hits[0].basic_data.artist, "Rick Astley");
    assert_eq!(hits[0].basic_data.data_type, DataSetType::Chords);
    assert_eq!(hits[0].basic_data.tab_link, "https://tabs.ultimate-guitar.com/tab/rick-astley/song-521741");
    assert_eq!(hits[0].rating_count, 1234);
    assert_eq!(hits[0].rating, "4.8");
    assert_eq!(hits[1].basic_data.data_type, DataSetType::Tab);
}

#[test]
fn result_page_spoilt_entry() {
    // An empty vote count is no number.
    let html = entry("521741", "196324", "T", "Chords", "", "4.8");
    assert_eq!(search_page_hits(&html), None);
}

#[test]
fn result_page_without_entries() {
    assert_eq!(search_page_hits("<html>no results</html>"), Some(vec![]));
}

#[test]
fn search_progress_stops_at_empty_page() {
    let mut progress: SearchProgress<u32, String> = SearchProgress::new(5);
    assert_eq!(progress.next_page(), Some(1));
    progress.record_page(Ok(vec![1, 2]));
    assert_eq!(progress.next_page(), Some(2));
    progress.record_page(Ok(vec![3]));
    assert_eq!(progress.next_page(), Some(3));
    progress.record_page(Ok(vec![]));
    assert_eq!(progress.next_page(), None);
    assert_eq!(progress.into_result(), Ok(vec![1, 2, 3]));
}

#[test]
fn search_progress_failed_page_drops_results() {
    let mut progress: SearchProgress<u32, String> = SearchProgress::new(5);
    progress.record_page(Ok(vec![1, 2]));
    assert_eq!(progress.next_page(), Some(2));
    progress.record_page(Err("request failed".to_string()));
    assert_eq!(progress.next_page(), None);
    assert_eq!(progress.into_result(), Err("request failed".to_string()));
}

#[test]
fn search_progress_page_amount() {
    let mut progress: SearchProgress<u32, String> = SearchProgress::new(2);
    assert_eq!(progress.next_page(), Some(1));
    progress.record_page(Ok(vec![1]));
    assert_eq!(progress.next_page(), Some(2));
    progress.record_page(Ok(vec![2]));
    assert_eq!(progress.next_page(), None);
    assert_eq!(progress.into_result(), Ok(vec![1, 2]));
    let one: SearchProgress<u32, String> = SearchProgress::new(1);
    assert_eq!(one.next_page(), Some(1));
    let zero: SearchProgress<u32, String> = SearchProgress::new(0);
    assert_eq!(zero.next_page(), None);
    assert_eq!(zero.into_result(), Ok(vec![]));
}

#[test]
fn search_progress_all_pages() {
    let mut progress: SearchProgress<u8, String> = SearchProgress::new(u8::MAX);
    let mut asked = Vec::new();
    while let Some(page) = progress.next_page() {
        asked.push(page);
        progress.record_page(Ok(vec![page]));
    }
    assert_eq!(asked, (1..=255).collect::<Vec<u8>>());
    assert_eq!(progress.into_result(), Ok((1..=255).collect::<Vec<u8>>()));
}

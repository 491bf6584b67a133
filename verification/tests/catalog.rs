use yt_grab::error::AppError;
use yt_grab::playlist::{YtDlpEntry, YtDlpFetcher, YtDlpPlaylistJson, YtDlpVideoJson};
use yt_grab::video::Chapter;

fn entry(id: Option<&str>, title: Option<&str>, url: Option<&str>) -> YtDlpEntry {
    YtDlpEntry {
        id: id.map(String::from),
        title: title.map(String::from),
        duration: Some(120),
        url: url.map(String::from),
    }
}

fn collection(entries: Option<Vec<YtDlpEntry>>) -> YtDlpPlaylistJson {
    YtDlpPlaylistJson {
        title: Some(String::from("My Playlist")),
        entries,
        id: Some(String::from("single-id")),
        webpage_url: Some(String::from("https://example.com/single")),
        full_title: Some(String::from("Single Item")),
        duration: Some(90),
        chapters: None,
    }
}

#[test]
fn present_entries_array_means_collection() {
    let json = collection(Some(vec![
        entry(Some("a"), Some("First"), Some("https://example.com/a")),
        entry(Some("b"), Some("Second"), Some("https://example.com/b")),
    ]));
    let (title, videos) = YtDlpFetcher::catalog_from_json(json).unwrap();
    assert_eq!(title, Some(String::from("My Playlist")));
    assert_eq!(videos.len(), 2);
    assert_eq!(videos[0].index, 1);
    assert_eq!(videos[1].index, 2);
    assert_eq!(videos[0].title, "First");
    assert_eq!(videos[1].url, "https://example.com/b");
    assert!(videos[0].chapters.is_empty());
    assert!(videos[1].chapters.is_empty());
}

#[test]
fn empty_entries_array_is_an_empty_catalog() {
    let json = collection(Some(Vec::new()));
    assert!(matches!(
        YtDlpFetcher::catalog_from_json(json),
        Err(AppError::EmptyPlaylist)
    ));
}

#[test]
fn absent_entries_means_single_item_from_own_fields() {
    let json = collection(None);
    let (title, videos) = YtDlpFetcher::catalog_from_json(json).unwrap();
    assert_eq!(title, None);
    assert_eq!(videos.len(), 1);
    assert_eq!(videos[0].index, 1);
    assert_eq!(videos[0].id, "single-id");
    assert_eq!(videos[0].title, "Single Item");
    assert_eq!(videos[0].url, "https://example.com/single");
    assert_eq!(videos[0].duration, Some(90));
}

#[test]
fn missing_entry_fields_fall_back() {
    let json = collection(Some(vec![
        entry(Some("vid123"), None, None),
        entry(None, None, None),
    ]));
    let (_, videos) = YtDlpFetcher::catalog_from_json(json).unwrap();
    assert_eq!(videos[0].url, "https://www.youtube.com/watch?v=vid123");
    assert_eq!(videos[0].title, "Video 1");
    assert_eq!(videos[1].id, "");
    assert_eq!(videos[1].url, "https://www.youtube.com/watch?v=");
    assert_eq!(videos[1].title, "Video 2");
}

#[test]
fn untitled_single_item_is_unknown() {
    let mut json = collection(None);
    json.full_title = None;
    json.webpage_url = None;
    let (_, videos) = YtDlpFetcher::catalog_from_json(json).unwrap();
    assert_eq!(videos[0].title, "Unknown");
    assert_eq!(videos[0].url, "https://www.youtube.com/watch?v=single-id");
}

#[test]
fn chapters_come_from_metadata_response() {
    let json = YtDlpVideoJson {
        chapters: Some(vec![Chapter {
            title: String::from("Intro"),
            start_time: 0,
            end_time: 60,
        }]),
    };
    let chapters = YtDlpFetcher::chapters_from_json(json);
    assert_eq!(chapters.len(), 1);
    assert_eq!(chapters[0].title, "Intro");
    assert!(YtDlpFetcher::chapters_from_json(YtDlpVideoJson { chapters: None }).is_empty());
}

#[test]
fn fetch_argument_vectors_match_the_tool_contract() {
    let url = String::from("https://example.com/list");
    assert_eq!(
        YtDlpFetcher::catalog_fetch_args(&url),
        vec!["--flat-playlist", "-J", "--no-warnings", "https://example.com/list"]
    );
    assert_eq!(
        YtDlpFetcher::metadata_fetch_args(&url),
        vec!["-J", "--no-warnings", "https://example.com/list"]
    );
}

use yt_grab::args::Args;
use yt_grab::format::{AudioCodec, MediaFormat, VideoCodec};
use yt_grab::video::{Chapter, VideoInfo, filter_selected, format_time, sections_from_indices};

fn args_with_format(format: Option<&str>) -> Args {
    Args {
        url: String::from("https://example.com/v"),
        output: String::from("."),
        concurrency: 3,
        format: format.map(String::from),
        all: false,
        items: None,
        no_chapters: false,
    }
}

fn plain_video(index: usize, title: &str) -> VideoInfo {
    VideoInfo {
        index,
        id: format!("id{}", index),
        title: String::from(title),
        duration: None,
        url: format!("https://example.com/{}", index),
        chapters: Vec::new(),
        selected_sections: Vec::new(),
    }
}

#[test]
fn parse_format_reads_names_case_insensitively() {
    assert_eq!(
        args_with_format(Some("mp3")).parse_format(),
        Some(MediaFormat::Audio(AudioCodec::Mp3))
    );
    assert_eq!(
        args_with_format(Some("OPUS")).parse_format(),
        Some(MediaFormat::Audio(AudioCodec::Opus))
    );
    assert_eq!(
        args_with_format(Some("m4a")).parse_format(),
        Some(MediaFormat::Audio(AudioCodec::M4a))
    );
    assert_eq!(
        args_with_format(Some("Mp4")).parse_format(),
        Some(MediaFormat::Video(VideoCodec::Mp4))
    );
    assert_eq!(
        args_with_format(Some("mkv")).parse_format(),
        Some(MediaFormat::Video(VideoCodec::Mkv))
    );
}

#[test]
fn unknown_format_name_falls_back_to_mp3() {
    assert_eq!(
        args_with_format(Some("flac")).parse_format(),
        Some(MediaFormat::Audio(AudioCodec::Mp3))
    );
}

#[test]
fn absent_format_stays_interactive() {
    assert_eq!(args_with_format(None).parse_format(), None);
}

#[test]
fn all_options_lists_every_format_in_menu_order() {
    let options = MediaFormat::all_options();
    let labels: Vec<&str> = options.iter().map(|(l, _)| l.as_str()).collect();
    assert_eq!(
        labels,
        vec!["Audio - MP3", "Audio - Opus", "Audio - M4A", "Video - MP4", "Video - MKV"]
    );
    assert_eq!(options[1].1, MediaFormat::Audio(AudioCodec::Opus));
    assert_eq!(options[4].1, MediaFormat::Video(VideoCodec::Mkv));
}

#[test]
fn format_names_render_as_category_slash_codec() {
    assert_eq!(MediaFormat::Audio(AudioCodec::M4a).name(), "audio/m4a");
    assert_eq!(MediaFormat::Video(VideoCodec::Mp4).name(), "video/mp4");
}

#[test]
fn times_render_as_minutes_and_padded_seconds() {
    assert_eq!(format_time(0), "0:00");
    assert_eq!(format_time(59), "0:59");
    assert_eq!(format_time(65), "1:05");
    assert_eq!(format_time(3725), "62:05");
}

#[test]
fn duration_display_handles_unknown() {
    let mut v = plain_video(1, "a");
    assert_eq!(v.duration_display(), "??:??");
    v.duration = Some(125);
    assert_eq!(v.duration_display(), "2:05");
}

#[test]
fn chapter_time_display_shows_both_ends() {
    let ch = Chapter { title: String::from("One"), start_time: 65, end_time: 150 };
    assert_eq!(ch.time_display(), "1:05 - 2:30");
}

#[test]
fn chapter_flags_follow_contents() {
    let mut v = plain_video(1, "a");
    assert!(!v.has_chapters());
    assert!(!v.has_selected_sections());
    v.chapters.push(Chapter { title: String::from("c"), start_time: 0, end_time: 1 });
    v.selected_sections.push((0, 1));
    assert!(v.has_chapters());
    assert!(v.has_selected_sections());
}

#[test]
fn sections_from_indices_picks_chapter_bounds_in_order() {
    let chapters = vec![
        Chapter { title: String::from("a"), start_time: 0, end_time: 60 },
        Chapter { title: String::from("b"), start_time: 60, end_time: 120 },
        Chapter { title: String::from("c"), start_time: 120, end_time: 180 },
    ];
    let sections = sections_from_indices(&chapters, &vec![3, 1]);
    assert_eq!(sections, vec![(120, 180), (0, 60)]);
}

#[test]
fn filter_selected_keeps_chosen_items_in_catalog_order() {
    let videos = vec![plain_video(1, "a"), plain_video(2, "b"), plain_video(3, "c")];
    let kept = filter_selected(videos, &vec![3, 1]);
    let titles: Vec<&str> = kept.iter().map(|v| v.title.as_str()).collect();
    assert_eq!(titles, vec!["a", "c"]);
}

use yt_grab::config::DownloadConfig;
use yt_grab::downloader::{
    YtDlpDownloader, download_outcome, failure_reason, parse_progress_percent, section_range_arg,
};
use yt_grab::error::AppError;
use yt_grab::format::{AudioCodec, MediaFormat, VideoCodec};
use yt_grab::video::VideoInfo;

fn video(title: &str, url: &str, sections: Vec<(u64, u64)>) -> VideoInfo {
    VideoInfo {
        index: 1,
        id: String::from("id1"),
        title: String::from(title),
        duration: Some(300),
        url: String::from(url),
        chapters: Vec::new(),
        selected_sections: sections,
    }
}

#[test]
fn progress_line_yields_percentage_in_thousandths() {
    let line = "[download]  45.2% of 5.23MiB at 1.2MiB/s ETA 00:03";
    assert_eq!(parse_progress_percent(line), Some(45200));
}

#[test]
fn line_without_marker_yields_nothing() {
    assert_eq!(parse_progress_percent("  45.2% of 5.23MiB"), None);
}

#[test]
fn malformed_percentage_yields_nothing() {
    assert_eq!(parse_progress_percent("[download]  ab.c% of 5MiB"), None);
    assert_eq!(parse_progress_percent("[download] no percent here"), None);
}

#[test]
fn first_percent_token_decides_alone() {
    assert_eq!(parse_progress_percent("[download] 12% then 99%"), Some(12000));
    assert_eq!(parse_progress_percent("[download] x% then 99%"), None);
}

#[test]
fn whole_number_percentages_scale() {
    assert_eq!(parse_progress_percent("[download] 100% of 1MiB"), Some(100000));
    assert_eq!(parse_progress_percent("[download] 0.5%"), Some(500));
}

#[test]
fn section_range_uses_padded_minute_second_syntax() {
    assert_eq!(section_range_arg(65, 150), "*01:05-02:30");
    assert_eq!(section_range_arg(0, 59), "*00:00-00:59");
    assert_eq!(section_range_arg(3600, 3723), "*60:00-62:03");
}

#[test]
fn build_args_plain_audio() {
    let v = video("Song", "https://example.com/v1", Vec::new());
    let c = DownloadConfig {
        format: MediaFormat::Audio(AudioCodec::Mp3),
        output_dir: String::from("out"),
        concurrency: 3,
    };
    let args = YtDlpDownloader::build_args(&v, &c);
    assert_eq!(
        args,
        vec![
            "--no-warnings",
            "--newline",
            "--progress",
            "-o",
            "out/%(title)s.%(ext)s",
            "-x",
            "--audio-format",
            "mp3",
            "--audio-quality",
            "0",
            "https://example.com/v1",
        ]
    );
}

#[test]
fn build_args_video_with_sections() {
    let v = video("Talk", "https://example.com/v2", vec![(65, 150), (200, 260)]);
    let c = DownloadConfig {
        format: MediaFormat::Video(VideoCodec::Mkv),
        output_dir: String::from("d"),
        concurrency: 1,
    };
    let args = YtDlpDownloader::build_args(&v, &c);
    assert_eq!(
        args,
        vec![
            "--no-warnings",
            "--newline",
            "--progress",
            "-o",
            "d/%(title)s - %(section_title)s.%(ext)s",
            "--download-sections",
            "*01:05-02:30",
            "--download-sections",
            "*03:20-04:20",
            "--merge-output-format",
            "mkv",
            "https://example.com/v2",
        ]
    );
}

#[test]
fn last_error_line_wins() {
    let lines = vec![
        String::from("ERROR: first failure"),
        String::from("some noise"),
        String::from("ERROR: second failure"),
        String::from("trailing noise"),
    ];
    assert_eq!(failure_reason(&lines), Some(String::from("ERROR: second failure")));
}

#[test]
fn no_error_line_gives_no_reason() {
    let lines = vec![String::from("warning: something"), String::from("noise")];
    assert_eq!(failure_reason(&lines), None);
    assert_eq!(failure_reason(&Vec::new()), None);
}

#[test]
fn zero_exit_settles_success() {
    let r = download_outcome(&String::from("Song"), true, &Vec::new()).unwrap();
    assert_eq!(r.title, "Song");
    assert!(r.success);
    assert!(r.error.is_none());
}

#[test]
fn nonzero_exit_settles_failure_with_last_error_line() {
    let lines = vec![String::from("ERROR: a"), String::from("ERROR: b")];
    match download_outcome(&String::from("Song"), false, &lines) {
        Err(AppError::DownloadFailed { title, reason }) => {
            assert_eq!(title, "Song");
            assert_eq!(reason, "ERROR: b");
        }
        other => panic!("unexpected outcome: {:?}", other.map(|r| r.title)),
    }
}

#[test]
fn nonzero_exit_without_error_line_gets_generic_reason() {
    match download_outcome(&String::from("Song"), false, &Vec::new()) {
        Err(AppError::DownloadFailed { reason, .. }) => {
            assert_eq!(reason, "yt-dlp exited with non-zero status");
        }
        other => panic!("unexpected outcome: {:?}", other.map(|r| r.title)),
    }
}

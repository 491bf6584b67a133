use vstd::prelude::*;
use crate::format::{MediaFormat, format_of_name};
use crate::text::ascii_lower_string;
use vstd::string::StringExecFns;

verus! {

/// The command-line surface: a locator plus run options. Argument parsing
/// itself is presentation-side; this type carries the parsed values.
#[derive(Clone, Debug)]
pub struct Args {
    /// Locator of the video or playlist to fetch.
    pub url: String,
    /// Output directory.
    pub output: String,
    /// Number of concurrent downloads.
    pub concurrency: usize,
    /// Format name: mp3, opus, m4a, mp4 or mkv; interactive when absent.
    pub format: Option<String>,
    /// Download all items without interactive selection.
    pub all: bool,
    /// Explicit item selection expression; skips interactive selection.
    pub items: Option<String>,
    /// Skip chapter selection and download whole items.
    pub no_chapters: bool,
}

impl Args {
    /// The format the `format` option names, read case-insensitively, with
    /// MP3 audio as the fallback for an unrecognised name; `None` when the
    /// option is absent.
    pub fn parse_format(&self) -> (r: Option<MediaFormat>)
        ensures
            match self.format {
                Some(f) => r == Some(format_of_name(f@)),
                None => r is None,
            },
    {
        match &self.format {
            None => None,
            Some(f) => {
                let l = ascii_lower_string(f.as_str());
                let r = if l == String::from_str("mp3") {
                    MediaFormat::Audio(crate::format::AudioCodec::Mp3)
                } else if l == String::from_str("opus") {
                    MediaFormat::Audio(crate::format::AudioCodec::Opus)
                } else if l == String::from_str("m4a") {
                    MediaFormat::Audio(crate::format::AudioCodec::M4a)
                } else if l == String::from_str("mp4") {
                    MediaFormat::Video(crate::format::VideoCodec::Mp4)
                } else if l == String::from_str("mkv") {
                    MediaFormat::Video(crate::format::VideoCodec::Mkv)
                } else {
                    MediaFormat::Audio(crate::format::AudioCodec::Mp3)
                };
                Some(r)
            },
        }
    }
}

} // verus!

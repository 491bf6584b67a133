use vstd::prelude::*;
use vstd::string::StringExecFns;
use crate::text::ascii_lower;

verus! {

/// Audio codecs the external tool can extract.
#[derive(Clone, Copy, Debug, PartialEq, Eq, Structural)]
pub enum AudioCodec {
    Mp3,
    Opus,
    M4a,
}

/// Container formats for merged video downloads.
#[derive(Clone, Copy, Debug, PartialEq, Eq, Structural)]
pub enum VideoCodec {
    Mp4,
    Mkv,
}

/// The output format a run downloads into: audio extraction with a codec,
/// or a merged video container.
#[derive(Clone, Copy, Debug, PartialEq, Eq, Structural)]
pub enum MediaFormat {
    Audio(AudioCodec),
    Video(VideoCodec),
}

pub open spec fn audio_codec_name(c: AudioCodec) -> Seq<char> {
    match c {
        AudioCodec::Mp3 => "mp3"@,
        AudioCodec::Opus => "opus"@,
        AudioCodec::M4a => "m4a"@,
    }
}

pub open spec fn video_codec_name(c: VideoCodec) -> Seq<char> {
    match c {
        VideoCodec::Mp4 => "mp4"@,
        VideoCodec::Mkv => "mkv"@,
    }
}

/// The `category/codec` text a format is shown as.
pub open spec fn media_format_name(f: MediaFormat) -> Seq<char> {
    match f {
        MediaFormat::Audio(c) => "audio/"@ + audio_codec_name(c),
        MediaFormat::Video(c) => "video/"@ + video_codec_name(c),
    }
}

/// The codec name a format expression names, read case-insensitively.
/// Any unrecognised name falls back to MP3 audio.
pub open spec fn format_of_name(s: Seq<char>) -> MediaFormat {
    let l = s.map_values(|c: char| ascii_lower(c));
    if l == "mp3"@ {
        MediaFormat::Audio(AudioCodec::Mp3)
    } else if l == "opus"@ {
        MediaFormat::Audio(AudioCodec::Opus)
    } else if l == "m4a"@ {
        MediaFormat::Audio(AudioCodec::M4a)
    } else if l == "mp4"@ {
        MediaFormat::Video(VideoCodec::Mp4)
    } else if l == "mkv"@ {
        MediaFormat::Video(VideoCodec::Mkv)
    } else {
        MediaFormat::Audio(AudioCodec::Mp3)
    }
}

impl AudioCodec {
    /// The codec name the external tool's audio-format switch expects.
    pub fn name(&self) -> (r: String)
        ensures
            r@ == audio_codec_name(*self),
    {
        match self {
            AudioCodec::Mp3 => String::from_str("mp3"),
            AudioCodec::Opus => String::from_str("opus"),
            AudioCodec::M4a => String::from_str("m4a"),
        }
    }
}

impl VideoCodec {
    /// The container name the external tool's merge switch expects.
    pub fn name(&self) -> (r: String)
        ensures
            r@ == video_codec_name(*self),
    {
        match self {
            VideoCodec::Mp4 => String::from_str("mp4"),
            VideoCodec::Mkv => String::from_str("mkv"),
        }
    }
}

impl MediaFormat {
    /// The `category/codec` text this format is shown as.
    pub fn name(&self) -> (r: String)
        ensures
            r@ == media_format_name(*self),
    {
        match self {
            MediaFormat::Audio(c) => String::from_str("audio/").concat(c.name().as_str()),
            MediaFormat::Video(c) => String::from_str("video/").concat(c.name().as_str()),
        }
    }

    /// Every selectable format with its menu label, in menu order.
    pub fn all_options() -> (r: Vec<(String, MediaFormat)>)
        ensures
            r@.len() == 5,
            r@[0].0@ == "Audio - MP3"@ && r@[0].1 == MediaFormat::Audio(AudioCodec::Mp3),
            r@[1].0@ == "Audio - Opus"@ && r@[1].1 == MediaFormat::Audio(AudioCodec::Opus),
            r@[2].0@ == "Audio - M4A"@ && r@[2].1 == MediaFormat::Audio(AudioCodec::M4a),
            r@[3].0@ == "Video - MP4"@ && r@[3].1 == MediaFormat::Video(VideoCodec::Mp4),
            r@[4].0@ == "Video - MKV"@ && r@[4].1 == MediaFormat::Video(VideoCodec::Mkv),
    {
        let mut v: Vec<(String, MediaFormat)> = Vec::new();
        v.push((String::from_str("Audio - MP3"), MediaFormat::Audio(AudioCodec::Mp3)));
        v.push((String::from_str("Audio - Opus"), MediaFormat::Audio(AudioCodec::Opus)));
        v.push((String::from_str("Audio - M4A"), MediaFormat::Audio(AudioCodec::M4a)));
        v.push((String::from_str("Video - MP4"), MediaFormat::Video(VideoCodec::Mp4)));
        v.push((String::from_str("Video - MKV"), MediaFormat::Video(VideoCodec::Mkv)));
        v
    }
}

} // verus!

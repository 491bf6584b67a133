use vstd::prelude::*;
use vstd::string::StringExecFns;
use crate::error::AppError;
use crate::text::dec_digits;
use crate::text::u64_to_string;
use crate::video::{Chapter, VideoInfo};

verus! {

/// One entry of a collection response, as plain values.
pub struct YtDlpEntry {
    pub id: Option<String>,
    pub title: Option<String>,
    /// Duration in whole seconds.
    pub duration: Option<u64>,
    pub url: Option<String>,
}

/// The tool's catalog-fetch response. A collection carries `title` and
/// `entries`; a single-item response carries the item's own fields
/// directly and no `entries` at all.
pub struct YtDlpPlaylistJson {
    pub title: Option<String>,
    pub entries: Option<Vec<YtDlpEntry>>,
    pub id: Option<String>,
    pub webpage_url: Option<String>,
    pub full_title: Option<String>,
    pub duration: Option<u64>,
    pub chapters: Option<Vec<Chapter>>,
}

/// The tool's single-item metadata response: only the chapter list is
/// read from it.
pub struct YtDlpVideoJson {
    pub chapters: Option<Vec<Chapter>>,
}

/// The locator an entry without a `url` field resolves to.
pub open spec fn fallback_url(id: Seq<char>) -> Seq<char> {
    "https://www.youtube.com/watch?v="@ + id
}

/// The display title of an untitled entry at 0-based position `i`.
pub open spec fn fallback_title(i: int) -> Seq<char> {
    "Video "@ + dec_digits(i + 1)
}

pub open spec fn opt_string_view(o: Option<String>) -> Option<Seq<char>> {
    match o {
        Some(s) => Some(s@),
        None => None,
    }
}

/// How one collection entry at 0-based position `i` becomes an item:
/// 1-based index, missing id read as empty, missing locator resolved
/// from the id, missing title replaced by a positional one, and no
/// chapters or selected sections yet.
pub open spec fn entry_video_ok(e: YtDlpEntry, i: int, v: VideoInfo) -> bool {
    &&& v.index == i + 1
    &&& v.id@ == (match e.id {
        Some(id) => id@,
        None => Seq::<char>::empty(),
    })
    &&& v.url@ == (match e.url {
        Some(u) => u@,
        None => fallback_url(
            match e.id {
                Some(id) => id@,
                None => Seq::<char>::empty(),
            },
        ),
    })
    &&& v.title@ == (match e.title {
        Some(t) => t@,
        None => fallback_title(i),
    })
    &&& v.duration == e.duration
    &&& v.chapters@.len() == 0
    &&& v.selected_sections@.len() == 0
}

/// The catalog fetcher: the subprocess calls live at the presentation
/// edge; the document-shaping logic lives here.
pub struct YtDlpFetcher;

impl YtDlpFetcher {
    /// The tool's argument vector for enumerating a catalog.
    pub fn catalog_fetch_args(url: &String) -> (r: Vec<String>)
        ensures
            r@.map_values(|s: String| s@) == seq![
                "--flat-playlist"@,
                "-J"@,
                "--no-warnings"@,
                url@,
            ],
    {
        let mut v: Vec<String> = Vec::new();
        v.push(String::from_str("--flat-playlist"));
        v.push(String::from_str("-J"));
        v.push(String::from_str("--no-warnings"));
        v.push(String::from_str(url.as_str()));
        proof {
            assert(v@.map_values(|s: String| s@) =~~= seq![
                "--flat-playlist"@,
                "-J"@,
                "--no-warnings"@,
                url@,
            ]);
        }
        v
    }

    /// The tool's argument vector for one item's full metadata.
    pub fn metadata_fetch_args(url: &String) -> (r: Vec<String>)
        ensures
            r@.map_values(|s: String| s@) == seq!["-J"@, "--no-warnings"@, url@],
    {
        let mut v: Vec<String> = Vec::new();
        v.push(String::from_str("-J"));
        v.push(String::from_str("--no-warnings"));
        v.push(String::from_str(url.as_str()));
        proof {
            assert(v@.map_values(|s: String| s@) =~~= seq!["-J"@, "--no-warnings"@, url@]);
        }
        v
    }

    /// The chapter list a single-item metadata response reports, or empty
    /// when it reports none.
    pub fn chapters_from_json(json: YtDlpVideoJson) -> (r: Vec<Chapter>)
        ensures
            r@ == (match json.chapters {
                Some(c) => c@,
                None => Seq::<Chapter>::empty(),
            }),
    {
        match json.chapters {
            Some(c) => c,
            None => Vec::new(),
        }
    }

    /// Shapes a catalog-fetch response into the catalog.
    ///
    /// A response with an `entries` array is a collection: an empty array
    /// fails with `EmptyPlaylist`, otherwise each entry becomes one item
    /// with a 1-based index and no chapters yet, under the collection's
    /// title. A response without `entries` is a single item built from
    /// the response's own fields, with its chapters taken directly and no
    /// collection title.
    #[verifier::loop_isolation(false)]
    pub fn catalog_from_json(json: YtDlpPlaylistJson) -> (r: Result<
        (Option<String>, Vec<VideoInfo>),
        AppError,
    >)
        ensures
            match json.entries {
                Some(entries) => if entries@.len() == 0 {
                    r matches Err(AppError::EmptyPlaylist)
                } else {
                    &&& r is Ok
                    &&& opt_string_view(r->Ok_0.0) == opt_string_view(json.title)
                    &&& r->Ok_0.1@.len() == entries@.len()
                    &&& (forall|i: int| 0 <= i < entries@.len() ==> entry_video_ok(
                        entries@[i],
                        i,
                        #[trigger] r->Ok_0.1@[i],
                    ))
                },
                None => {
                    &&& r is Ok
                    &&& r->Ok_0.0 is None
                    &&& r->Ok_0.1@.len() == 1
                    &&& r->Ok_0.1@[0].index == 1
                    &&& r->Ok_0.1@[0].id@ == (match json.id {
                        Some(id) => id@,
                        None => Seq::<char>::empty(),
                    })
                    &&& r->Ok_0.1@[0].url@ == (match json.webpage_url {
                        Some(u) => u@,
                        None => fallback_url(
                            match json.id {
                                Some(id) => id@,
                                None => Seq::<char>::empty(),
                            },
                        ),
                    })
                    &&& r->Ok_0.1@[0].title@ == (match json.full_title {
                        Some(t) => t@,
                        None => "Unknown"@,
                    })
                    &&& r->Ok_0.1@[0].duration == json.duration
                    &&& r->Ok_0.1@[0].chapters@ == (match json.chapters {
                        Some(c) => c@,
                        None => Seq::<Chapter>::empty(),
                    })
                    &&& r->Ok_0.1@[0].selected_sections@.len() == 0
                },
            },
    {
        let YtDlpPlaylistJson { title, entries, id, webpage_url, full_title, duration, chapters } =
            json;
        match entries {
            Some(es) => {
                if es.len() == 0 {
                    return Err(AppError::EmptyPlaylist);
                }
                let mut videos: Vec<VideoInfo> = Vec::new();
                let mut i: usize = 0;
                while i < es.len()
                    invariant
                        i <= es@.len(),
                        videos@.len() == i,
                        forall|j: int| 0 <= j < i ==> entry_video_ok(
                            es@[j],
                            j,
                            #[trigger] videos@[j],
                        ),
                    decreases es@.len() - i,
                {
                    let e = &es[i];
                    let eid = match &e.id {
                        Some(s) => s.clone(),
                        None => String::new(),
                    };
                    let url = match &e.url {
                        Some(u) => u.clone(),
                        None => String::from_str("https://www.youtube.com/watch?v=").concat(
                            eid.as_str(),
                        ),
                    };
                    let etitle = match &e.title {
                        Some(t) => t.clone(),
                        None => String::from_str("Video ").concat(
                            u64_to_string((i + 1) as u64).as_str(),
                        ),
                    };
                    let v = VideoInfo {
                        index: i + 1,
                        id: eid,
                        title: etitle,
                        duration: e.duration,
                        url,
                        chapters: Vec::new(),
                        selected_sections: Vec::new(),
                    };
                    videos.push(v);
                    i += 1;
                }
                Ok((title, videos))
            },
            None => {
                let vid = match id {
                    Some(s) => s,
                    None => String::new(),
                };
                let url = match webpage_url {
                    Some(u) => u,
                    None => String::from_str("https://www.youtube.com/watch?v=").concat(
                        vid.as_str(),
                    ),
                };
                let vtitle = match full_title {
                    Some(t) => t,
                    None => String::from_str("Unknown"),
                };
                let video = VideoInfo {
                    index: 1,
                    id: vid,
                    title: vtitle,
                    duration,
                    url,
                    chapters: match chapters {
                        Some(c) => c,
                        None => Vec::new(),
                    },
                    selected_sections: Vec::new(),
                };
                let mut videos: Vec<VideoInfo> = Vec::new();
                videos.push(video);
                Ok((None, videos))
            },
        }
    }
}

} // verus!

//! [`nginx-vod-module` mapping][1] response format.
//!
//! [1]: https://github.com/kaltura/nginx-vod-module#mapping-response-format

use vstd::prelude::*;

use crate::fspath::{join, joined_path, path_stripped, strip_prefix};
use crate::text::str_eq;
use crate::weburl::{WebUrl, WebUrlView};

verus! {

/// Set of media clips to be played by `nginx-vod-module`.
#[derive(Clone, Debug)]
pub struct MediaSet {
    /// ID of this set.
    pub id: Option<String>,
    /// Kind of the playlist this set forms.
    pub playlist_type: PlaylistType,
    /// Whether the clips of this set are played with discontinuities.
    pub discontinuity: bool,
    /// Duration of the segments the clips are cut into.
    pub segment_duration: Option<MillisDuration>,
    /// Index of the first clip of this set in the whole live playlist.
    pub initial_clip_index: Option<u64>,
    /// Index of the first segment of this set in the whole live playlist.
    pub initial_segment_index: Option<u64>,
    /// Durations of the clips, in order.
    pub durations: Vec<MillisDuration>,
    /// Starting times of the clips, in order.
    pub clip_times: Vec<MillisDateTime>,
    /// Sequences of clips of this set, one for each video quality.
    pub sequences: Vec<Sequence>,
}

/// Limit of `nginx-vod-module` on the number of durations in a set.
pub const MAX_DURATIONS_LEN: usize = 128;

impl MediaSet {
    /// A set with no clips: a VOD playlist with discontinuities and nothing
    /// else specified.
    pub fn new() -> (res: MediaSet)
        ensures
            res.id is None,
            res.playlist_type == PlaylistType::Vod,
            res.discontinuity,
            res.segment_duration is None,
            res.initial_clip_index is None,
            res.initial_segment_index is None,
            res.durations@.len() == 0,
            res.clip_times@.len() == 0,
            res.sequences@.len() == 0,
    {
        MediaSet {
            id: None,
            playlist_type: PlaylistType::Vod,
            discontinuity: true,
            segment_duration: None,
            initial_clip_index: None,
            initial_segment_index: None,
            durations: Vec::new(),
            clip_times: Vec::new(),
            sequences: Vec::new(),
        }
    }
}

/// Kind of a playlist.
#[derive(Clone, Copy, Debug, PartialEq, Eq, Structural)]
pub enum PlaylistType {
    /// A live playlist.
    Live,
    /// A video-on-demand playlist.
    Vod,
}

/// Sequence of clips of one video quality.
#[derive(Clone, Debug)]
pub struct Sequence {
    /// ID of this sequence.
    pub id: Option<String>,
    /// Language of this sequence, as an ISO 639-3 code.
    pub language: Option<String>,
    /// Label of this sequence.
    pub label: Option<String>,
    /// Clips of this sequence, in order.
    pub clips: Vec<Clip>,
}

/// Media clip.
#[derive(Clone, Debug)]
pub struct Clip {
    /// Kind of this clip.
    pub clip_type: ClipType,
}

/// Possible kinds of a media clip.
#[derive(Clone, Debug)]
pub enum ClipType {
    /// Clip read from a source file.
    Source(SourceClip),
}

/// Clip read from a source file.
#[derive(Clone, Debug)]
pub struct SourceClip {
    /// Path of the source file, as `nginx-vod-module` resolves it.
    pub path: String,
    /// Offset in the source file to start playing from.
    pub from: Option<MillisDuration>,
    /// Offset in the source file to stop playing at.
    pub to: Option<MillisDuration>,
}

/// Duration in milliseconds.
#[derive(Clone, Copy, Debug, PartialEq, Eq, Structural)]
pub struct MillisDuration(pub u128);

/// Point in time, in milliseconds since the UNIX epoch.
#[derive(Clone, Copy, Debug, PartialEq, Eq, Structural)]
pub struct MillisDateTime(pub i128);

/// Prefix of a local source file path, and where `nginx-vod-module` finds
/// such files.
pub open spec fn local_prefixes() -> (Seq<char>, Seq<char>) {
    ("/"@, "/local"@)
}

/// Prefix of a remote source file path, and where `nginx-vod-module` finds
/// such files.
pub open spec fn remote_prefixes() -> (Seq<char>, Seq<char>) {
    ("/storage/videos"@, "/api.allatra.video"@)
}

/// The prefixes of a source file URL that `nginx-vod-module` can play:
/// `file` URLs, and `http`/`https` URLs of the `api.allatra.video` host.
pub open spec fn source_prefixes(u: WebUrlView) -> Option<(Seq<char>, Seq<char>)> {
    if u.scheme == "file"@ {
        Some(local_prefixes())
    } else if (u.scheme == "http"@ || u.scheme == "https"@) && u.host == Some(
        "api.allatra.video"@,
    ) {
        Some(remote_prefixes())
    } else {
        None
    }
}

/// Whether `nginx-vod-module` can play the source file of the given URL:
/// its scheme and host are supported and its path starts, component by
/// component, with the expected prefix.
pub open spec fn is_supported_source(u: WebUrlView) -> bool {
    match source_prefixes(u) {
        Some((old, _)) => path_stripped(u.path, old) is Some,
        None => false,
    }
}

/// Path that `nginx-vod-module` reads the source file of the given URL
/// from: the path without the source prefix, joined to the directory of
/// such files.
pub open spec fn url_path_spec(u: WebUrlView) -> Seq<char> {
    let (old, new) = source_prefixes(u)->0;
    joined_path(new, path_stripped(u.path, old)->Some_0)
}

impl SourceClip {
    /// Path that `nginx-vod-module` reads the source file of the given URL
    /// from: `file` URLs are served from `/local`, and remote
    /// `api.allatra.video` files from `/api.allatra.video`.
    pub fn get_url_path(url: &WebUrl) -> (res: String)
        requires
            is_supported_source(url@),
        ensures
            res@ == url_path_spec(url@),
    {
        let scheme = url.scheme();
        let (old, new): (&str, &str) = if str_eq(scheme, "file") {
            ("/", "/local")
        } else {
            ("/storage/videos", "/api.allatra.video")
        };
        proof {
            reveal_strlit("/");
            reveal_strlit("/storage/videos");
            reveal_strlit("/local");
            reveal_strlit("/api.allatra.video");
        }
        let rest = match strip_prefix(url.path(), old) {
            Some(r) => r,
            None => String::new(),
        };
        join(new, rest.as_str())
    }
}

} // verus!

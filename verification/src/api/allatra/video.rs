//! Videos of the [allatra.video](https://allatra.video) site API.

use vstd::prelude::*;

use crate::text::push_str;
use crate::weburl::WebUrl;

verus! {

/// ID of a video on YouTube.
pub type YoutubeId = String;

/// The allatra.video API: knows where the info of a video lives.
#[derive(Clone, Copy, Debug)]
pub struct Api;

/// Base URL of the allatra.video API, version 1.
pub const V1_URL: &'static str = "https://api.allatra.video/api/v1";

impl Api {
    /// URL of the request that retrieves the info of the video with the given
    /// YouTube ID: the API base, `/videos/yt/` and the ID.
    pub fn get_videos_yt_url(id: &str) -> (res: String)
        ensures
            res@ == V1_URL@ + "/videos/yt/"@ + id@,
    {
        let mut res = String::new();
        push_str(&mut res, V1_URL);
        push_str(&mut res, "/videos/yt/");
        push_str(&mut res, id);
        assert(res@ =~= V1_URL@ + "/videos/yt/"@ + id@);
        res
    }
}

/// Envelope of every API response.
#[derive(Clone, Copy, Debug)]
pub struct Response<T> {
    /// Payload of the response.
    pub data: T,
}

/// Info about a video.
#[derive(Clone, Debug)]
pub struct Video {
    /// ID of the video on YouTube.
    pub youtube_id: YoutubeId,
    /// Total duration of the video, in whole seconds.
    pub duration: u64,
    /// Source files of the video.
    pub sources: Vec<Source>,
}

/// Source file of a video.
#[derive(Clone, Debug)]
pub struct Source {
    /// URL of the file.
    pub src: WebUrl,
    /// MIME type of the file.
    pub mime_type: String,
    /// Video resolution of the file.
    pub size: Resolution,
}

/// Possible video resolutions of a source file.
#[derive(Clone, Copy, Debug, PartialEq, Eq, Structural, Hash)]
pub enum Resolution {
    /// 240p.
    P240,
    /// 360p.
    P360,
    /// 480p.
    P480,
    /// 720p.
    P720,
    /// 1080p.
    P1080,
}

/// Number of lines of the given resolution.
pub open spec fn resolution_lines(r: Resolution) -> u16 {
    match r {
        Resolution::P240 => 240,
        Resolution::P360 => 360,
        Resolution::P480 => 480,
        Resolution::P720 => 720,
        Resolution::P1080 => 1080,
    }
}

/// Position of the given resolution among all of them, lowest first.
pub open spec fn resolution_rank(r: Resolution) -> nat {
    match r {
        Resolution::P240 => 0,
        Resolution::P360 => 1,
        Resolution::P480 => 2,
        Resolution::P720 => 3,
        Resolution::P1080 => 4,
    }
}

/// All resolutions, lowest first.
pub open spec fn all_resolutions() -> Seq<Resolution> {
    seq![Resolution::P240, Resolution::P360, Resolution::P480, Resolution::P720, Resolution::P1080]
}

impl Resolution {
    /// Number of lines of this resolution, its number in the API.
    pub fn as_u16(self) -> (res: u16)
        ensures
            res == resolution_lines(self),
    {
        match self {
            Resolution::P240 => 240,
            Resolution::P360 => 360,
            Resolution::P480 => 480,
            Resolution::P720 => 720,
            Resolution::P1080 => 1080,
        }
    }

    /// Resolution of the given number of lines; `None` when there is no
    /// such resolution.
    pub fn from_u16(n: u16) -> (res: Option<Resolution>)
        ensures
            match res {
                Some(r) => resolution_lines(r) == n,
                None => forall|r: Resolution| resolution_lines(r) != n,
            },
    {
        if n == 240 {
            Some(Resolution::P240)
        } else if n == 360 {
            Some(Resolution::P360)
        } else if n == 480 {
            Some(Resolution::P480)
        } else if n == 720 {
            Some(Resolution::P720)
        } else if n == 1080 {
            Some(Resolution::P1080)
        } else {
            None
        }
    }

    /// All resolutions, lowest first.
    pub fn all() -> (res: Vec<Resolution>)
        ensures
            res@ == all_resolutions(),
    {
        let res = vec![
            Resolution::P240,
            Resolution::P360,
            Resolution::P480,
            Resolution::P720,
            Resolution::P1080,
        ];
        assert(res@ =~= all_resolutions());
        res
    }
}

} // verus!

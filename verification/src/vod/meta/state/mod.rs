//! Inner state of a `vod-meta` server.
//!
//! It holds a collection of [`Playlist`]s, each of which has a week-based
//! schedule of [`Clip`]s (each weekday has its own collection of [`Clip`]s).
//!
//! The total duration of all [`Clip`]s in the one weekday hasn't to be exactly
//! 24 hours, but cannot be more than that, and has to be a fraction of 24
//! hours. This is dictated by the necessity to correctly loop the weekday's
//! playlist to fill the whole 24 hours.

pub mod schedule;

use vstd::prelude::*;

use crate::api::allatra::video::{
    all_resolutions, resolution_rank, Resolution, Source, Video, YoutubeId,
};
use crate::pattern::{is_slug, matches_slug};
use crate::text::{chars_of, chars_eq, str_eq};
use crate::timezone::TimeZone;
use crate::weburl::{WebUrl, WebUrlView};

verus! {

/// Seconds in a day.
pub const SECS_IN_DAY: u64 = 86400;

/// Day of a week.
#[derive(Clone, Copy, Debug, PartialEq, Eq, Structural, Hash)]
pub enum Weekday {
    /// Monday.
    Mon,
    /// Tuesday.
    Tue,
    /// Wednesday.
    Wed,
    /// Thursday.
    Thu,
    /// Friday.
    Fri,
    /// Saturday.
    Sat,
    /// Sunday.
    Sun,
}

/// Number of days since Monday of the given weekday.
pub open spec fn weekday_index(d: Weekday) -> nat {
    match d {
        Weekday::Mon => 0,
        Weekday::Tue => 1,
        Weekday::Wed => 2,
        Weekday::Thu => 3,
        Weekday::Fri => 4,
        Weekday::Sat => 5,
        Weekday::Sun => 6,
    }
}

/// Weekday that is the given number of days since Monday.
pub open spec fn weekday_at(i: nat) -> Weekday {
    if i == 0 {
        Weekday::Mon
    } else if i == 1 {
        Weekday::Tue
    } else if i == 2 {
        Weekday::Wed
    } else if i == 3 {
        Weekday::Thu
    } else if i == 4 {
        Weekday::Fri
    } else if i == 5 {
        Weekday::Sat
    } else {
        Weekday::Sun
    }
}

impl Weekday {
    /// Number of days since Monday of this weekday.
    pub fn num_days_from_monday(self) -> (res: usize)
        ensures
            res == weekday_index(self),
    {
        match self {
            Weekday::Mon => 0,
            Weekday::Tue => 1,
            Weekday::Wed => 2,
            Weekday::Thu => 3,
            Weekday::Fri => 4,
            Weekday::Sat => 5,
            Weekday::Sun => 6,
        }
    }

    /// Weekday that is the given number of days since Monday.
    pub fn from_days_from_monday(i: usize) -> (res: Weekday)
        requires
            i < 7,
        ensures
            res == weekday_at(i as nat),
            weekday_index(res) == i,
    {
        if i == 0 {
            Weekday::Mon
        } else if i == 1 {
            Weekday::Tue
        } else if i == 2 {
            Weekday::Wed
        } else if i == 3 {
            Weekday::Thu
        } else if i == 4 {
            Weekday::Fri
        } else if i == 5 {
            Weekday::Sat
        } else {
            Weekday::Sun
        }
    }
}

/// [URL slug](https://en.wikipedia.org/wiki/Clean_URL#Slug) of a
/// [`Playlist`].
#[derive(Debug)]
pub struct PlaylistSlug {
    slug: String,
}

impl PlaylistSlug {
    /// Well-formedness: the text is a valid slug.
    #[verifier::type_invariant]
    spec fn inv(self) -> bool {
        is_slug(self.slug@)
    }

    /// Text of this slug.
    pub closed spec fn view(self) -> Seq<char> {
        self.slug@
    }

    /// Creates a new slug from the given text if it is a valid slug:
    /// lower-case alphanumeric segments joined by single hyphens.
    pub fn new(slug: &str) -> (res: Option<PlaylistSlug>)
        ensures
            match res {
                Some(s) => is_slug(slug@) && s.view() == slug@,
                None => !is_slug(slug@),
            },
    {
        if Self::validate(slug) {
            Some(PlaylistSlug { slug: slug.to_owned() })
        } else {
            None
        }
    }

    /// Validates whether the given text is a valid slug.
    pub fn validate(slug: &str) -> (res: bool)
        ensures
            res == is_slug(slug@),
    {
        !slug.is_empty() && matches_slug(slug)
    }

    /// Text of this slug.
    pub fn as_str(&self) -> (res: &str)
        ensures
            res@ == self.view(),
            is_slug(res@),
    {
        proof {
            use_type_invariant(self);
        }
        self.slug.as_str()
    }
}

impl Clone for PlaylistSlug {
    /// A copy of this slug.
    fn clone(&self) -> (res: Self)
        ensures
            res.view() == self.view(),
    {
        proof {
            use_type_invariant(self);
        }
        PlaylistSlug { slug: self.slug.clone() }
    }
}

/// Duration of a [`Clip`]'s segment, in whole seconds.
#[derive(Clone, Copy, Debug)]
pub struct SegmentDuration {
    secs: u64,
}

/// Whether the given number of seconds is a valid segment duration: from 5
/// to 30 seconds.
pub open spec fn valid_segment_secs(secs: nat) -> bool {
    5 <= secs <= 30
}

impl SegmentDuration {
    /// Well-formedness: the duration is a valid one.
    #[verifier::type_invariant]
    spec fn inv(self) -> bool {
        valid_segment_secs(self.secs as nat)
    }

    /// Seconds of this segment duration.
    pub closed spec fn secs(self) -> nat {
        self.secs as nat
    }

    /// Creates a new segment duration of `secs` seconds if it is valid.
    pub fn new(secs: u64) -> (res: Option<SegmentDuration>)
        ensures
            match res {
                Some(d) => valid_segment_secs(secs as nat) && d.secs() == secs,
                None => !valid_segment_secs(secs as nat),
            },
    {
        if Self::validate(secs) {
            Some(SegmentDuration { secs })
        } else {
            None
        }
    }

    /// Validates whether the given number of seconds is a valid segment
    /// duration: between 5 and 30 seconds, inclusively.
    pub fn validate(secs: u64) -> (res: bool)
        ensures
            res == valid_segment_secs(secs as nat),
    {
        secs >= 5 && secs <= 30
    }

    /// Creates a new segment duration of `millis` milliseconds if it is
    /// valid: a whole number of seconds, from 5 to 30. A duration with a
    /// part of a second, such as 30.5 seconds, is refused.
    pub fn from_millis(millis: u64) -> (res: Option<SegmentDuration>)
        ensures
            match res {
                Some(d) => millis % 1000 == 0 && valid_segment_secs((millis / 1000) as nat)
                    && d.secs() * 1000 == millis,
                None => !(millis % 1000 == 0 && valid_segment_secs((millis / 1000) as nat)),
            },
    {
        if millis % 1000 != 0 {
            return None;
        }
        Self::new(millis / 1000)
    }

    /// Seconds of this segment duration.
    pub fn as_duration(&self) -> (res: u64)
        ensures
            res == self.secs(),
            valid_segment_secs(res as nat),
    {
        proof {
            use_type_invariant(self);
        }
        self.secs
    }

    /// The default segment duration: 10 seconds.
    pub fn default() -> (res: SegmentDuration)
        ensures
            res.secs() == 10,
    {
        SegmentDuration { secs: 10 }
    }
}

/// Time window in a source file to play in a [`Clip`], in whole seconds.
/// Also defines the duration of a [`Clip`].
#[derive(Clone, Copy, Debug, PartialEq, Eq, Structural)]
pub struct ClipView {
    /// Starting position in the source file.
    pub from: u64,
    /// Finishing position in the source file.
    pub to: u64,
}

/// URL of a [`Clip`]'s source file.
#[derive(Clone, Debug)]
pub struct SrcUrl {
    /// Remote URL of the original source file on the upstream server.
    pub upstream: WebUrl,
    /// URL of the locally cached version of the source file, if any.
    pub local: Option<WebUrl>,
}

/// Source file of a [`Clip`].
#[derive(Clone, Debug)]
pub struct Src {
    /// URL of this source file.
    pub url: SrcUrl,
    /// MIME type of this source file.
    pub mime_type: String,
    /// Resolution of the video in this source file.
    pub size: Resolution,
}

/// Text of the URL of a file of the VOD cache, given its path relative to
/// the cache directory.
pub open spec fn cached_url_text(path: Seq<char>) -> Seq<char> {
    "file:///"@ + path
}

/// The local URL of a cached file cannot be made of its path.
#[derive(Debug)]
pub struct InvalidCachedPath;

impl Src {
    /// Whether the file of this source is not known to be cached yet: it has
    /// no local URL.
    pub fn is_uncached(&self) -> (res: bool)
        ensures
            res == (self.url.local is None),
    {
        self.url.local.is_none()
    }

    /// Takes the answer of the VOD cache for the file of this source: the
    /// path of the cached file relative to the cache directory, if it is
    /// cached. A cached file becomes the local URL, `file:///` and its path;
    /// an error when that text is not a URL, leaving the source as it is.
    pub fn take_cached(&mut self, path: Option<&str>) -> (res: Result<(), InvalidCachedPath>)
        ensures
            final(self).url.upstream == old(self).url.upstream,
            final(self).mime_type == old(self).mime_type,
            final(self).size == old(self).size,
            match path {
                None => res is Ok && final(self).url.local == old(self).url.local,
                Some(p) => match crate::weburl::parsed_url(cached_url_text(p@)) {
                    Some(u) => res is Ok && (final(self).url.local matches Some(l) && l@ == u),
                    None => res is Err && final(self).url.local == old(self).url.local,
                },
            },
    {
        match path {
            None => Ok(()),
            Some(p) => {
                let mut text = String::new();
                crate::text::push_str(&mut text, "file:///");
                crate::text::push_str(&mut text, p);
                match WebUrl::parse(text.as_str()) {
                    Some(u) => {
                        self.url.local = Some(u);
                        Ok(())
                    },
                    None => Err(InvalidCachedPath),
                }
            },
        }
    }
}

/// Clip in a [`Playlist`].
#[derive(Clone, Debug)]
pub struct Clip {
    /// ID of this clip on YouTube.
    pub youtube_id: YoutubeId,
    /// Human-readable title of this clip.
    pub title: String,
    /// Time window of this clip in its source files.
    pub view: ClipView,
    /// Source files of this clip, at most one for each resolution.
    pub sources: Vec<Src>,
}

/// Position of a [`Playlist`] indicating a fixed point in time to start
/// building the `nginx-vod-module` schedule from, and the initial clip and
/// segment indices to use for that.
#[derive(Clone, Copy, Debug, PartialEq, Eq, Structural)]
pub struct PlaylistInitialPosition {
    /// Index of the clip that plays at `at`.
    pub clip_index: u64,
    /// Index of the segment that plays at `at`.
    pub segment_index: u64,
    /// Point in time, in seconds since the UNIX epoch, that this position is
    /// applicable at.
    pub at: i64,
}

/// Playlist of [`Clip`]s to be played for some audience.
#[derive(Clone, Debug)]
pub struct Playlist {
    /// URL slug of this playlist.
    pub slug: PlaylistSlug,
    /// Human-readable title of this playlist.
    pub title: String,
    /// Language of the audience, as an ISO 639-3 code.
    pub lang: String,
    /// Timezone of the audience; clips are scheduled in it.
    pub tz: TimeZone,
    /// Duration of the segments to serve the clips with.
    pub segment_duration: SegmentDuration,
    /// Initial position to start building the schedule from; today in the
    /// playlist's timezone when absent.
    pub initial: Option<PlaylistInitialPosition>,
    /// Clips of each weekday, Monday first: seven lists, played one clip
    /// after another, in order and without gaps.
    pub clips: Vec<Vec<Clip>>,
}

/// Source of the given resolution among the given ones, if any.
pub open spec fn src_of(sources: Seq<Src>, r: Resolution) -> Option<Src>
    decreases sources.len(),
{
    if sources.len() == 0 {
        None
    } else if sources[0].size == r {
        Some(sources[0])
    } else {
        src_of(sources.drop_first(), r)
    }
}

/// Whether the given sources hold at most one source of each resolution.
pub open spec fn distinct_sizes(sources: Seq<Src>) -> bool {
    forall|i: int, j: int|
        0 <= i < j < sources.len() ==> (#[trigger] sources[i]).size != (#[trigger] sources[j]).size
}

/// Whether the given clip has a source of the given resolution.
pub open spec fn has_size(clip: Clip, r: Resolution) -> bool {
    exists|i: int| 0 <= i < clip.sources@.len() && (#[trigger] clip.sources@[i]).size == r
}

/// Whether the given weekly schedule has at least one clip.
pub open spec fn has_clips(week: Seq<Vec<Clip>>) -> bool {
    exists|d: int| 0 <= d < week.len() && (#[trigger] week[d])@.len() > 0
}

/// Whether every clip of the given weekly schedule has a source of the
/// given resolution.
pub open spec fn all_have(week: Seq<Vec<Clip>>, r: Resolution) -> bool {
    forall|d: int, j: int|
        0 <= d < week.len() && 0 <= j < week[d]@.len() ==> has_size(#[trigger] week[d]@[j], r)
}

/// Resolutions that all clips of the given weekly schedule have; none when
/// there are no clips at all.
pub open spec fn mutual_sizes(week: Seq<Vec<Clip>>, r: Resolution) -> bool {
    has_clips(week) && all_have(week, r)
}

/// Whether the clips of a weekly schedule are well-formed: seven days,
/// every clip lasts from one second to a day and has at most one source of
/// each resolution.
pub open spec fn week_wf(week: Seq<Vec<Clip>>) -> bool {
    &&& week.len() == 7
    &&& forall|d: int, j: int|
        0 <= d < 7 && 0 <= j < week[d]@.len() ==> {
            let c = #[trigger] week[d]@[j];
            &&& c.view.from < c.view.to
            &&& c.view.to - c.view.from <= SECS_IN_DAY
            &&& distinct_sizes(c.sources@)
        }
}

/// The first `k` resolutions, lowest first, that all clips of the given
/// weekly schedule have.
pub open spec fn mutual_list_upto(week: Seq<Vec<Clip>>, k: int) -> Seq<Resolution>
    decreases k,
{
    if k <= 0 {
        Seq::empty()
    } else {
        let prev = mutual_list_upto(week, k - 1);
        let r = all_resolutions()[k - 1];
        if mutual_sizes(week, r) {
            prev.push(r)
        } else {
            prev
        }
    }
}

/// Resolutions, lowest first, that all clips of the given weekly schedule
/// have.
pub open spec fn mutual_list(week: Seq<Vec<Clip>>) -> Seq<Resolution> {
    mutual_list_upto(week, 5)
}

impl Playlist {
    /// Well-formedness of this playlist's schedule.
    pub open spec fn wf(self) -> bool {
        week_wf(self.clips@)
    }

    /// Resolutions of source files that all clips of this playlist have,
    /// lowest first; none when the playlist has no clips.
    pub fn mutual_src_sizes(&self) -> (res: Vec<Resolution>)
        requires
            self.wf(),
        ensures
            res@ == mutual_list(self.clips@),
            forall|r: Resolution| #[trigger] res@.contains(r) <==> mutual_sizes(self.clips@, r),
            forall|i: int, j: int|
                0 <= i < j < res@.len() ==> resolution_rank(#[trigger] res@[i]) < resolution_rank(
                    #[trigger] res@[j],
                ),
    {
        let all = Resolution::all();
        let mut res: Vec<Resolution> = Vec::new();
        let any = any_clips(&self.clips);
        let mut k: usize = 0;
        while k < all.len()
            invariant
                k <= all.len(),
                all@ == all_resolutions(),
                any == has_clips(self.clips@),
                res@ == mutual_list_upto(self.clips@, k as int),
                self.wf(),
                forall|r: Resolution| #[trigger] res@.contains(r) <==> (resolution_rank(r) < k
                    && mutual_sizes(self.clips@, r)),
                forall|i: int, j: int|
                    0 <= i < j < res@.len() ==> resolution_rank(#[trigger] res@[i])
                        < resolution_rank(#[trigger] res@[j]),
                forall|i: int|
                    0 <= i < res@.len() ==> resolution_rank(#[trigger] res@[i]) < k,
            decreases all.len() - k,
        {
            let r = all[k];
            assert(resolution_rank(r) == k);
            let ghost before = res@;
            if any && all_have_size(&self.clips, r) {
                res.push(r);
                assert forall|x: Resolution| #[trigger] res@.contains(x) <==> (before.contains(x)
                    || x == r) by {
                    if x != r && res@.contains(x) {
                        let i = choose|i: int| 0 <= i < res@.len() && res@[i] == x;
                        assert(before[i] == x);
                    }
                    if x == r {
                        assert(res@[res@.len() - 1] == r);
                    }
                    if before.contains(x) {
                        let i = choose|i: int| 0 <= i < before.len() && before[i] == x;
                        assert(res@[i] == x);
                    }
                }
            }
            k = k + 1;
        }
        proof {
            assert forall|r: Resolution| #[trigger] res@.contains(r) <==> mutual_sizes(self.clips@, r) by {
                assert(resolution_rank(r) < 5);
            }
        }
        res
    }
}

/// Whether the given weekly schedule has at least one clip.
fn any_clips(week: &Vec<Vec<Clip>>) -> (res: bool)
    ensures
        res == has_clips(week@),
{
    let mut d: usize = 0;
    while d < week.len()
        invariant
            d <= week.len(),
            forall|e: int| 0 <= e < d ==> (#[trigger] week@[e])@.len() == 0,
        decreases week.len() - d,
    {
        if week[d].len() > 0 {
            return true;
        }
        d = d + 1;
    }
    false
}

/// Whether the given clip has a source of the given resolution.
fn clip_has_size(clip: &Clip, r: Resolution) -> (res: bool)
    ensures
        res == has_size(*clip, r),
{
    let mut i: usize = 0;
    while i < clip.sources.len()
        invariant
            i <= clip.sources.len(),
            forall|k: int| 0 <= k < i ==> (#[trigger] clip.sources@[k]).size != r,
        decreases clip.sources.len() - i,
    {
        if clip.sources[i].size == r {
            return true;
        }
        i = i + 1;
    }
    false
}

/// Whether every clip of the given weekly schedule has a source of the
/// given resolution.
fn all_have_size(week: &Vec<Vec<Clip>>, r: Resolution) -> (res: bool)
    ensures
        res == all_have(week@, r),
{
    let mut d: usize = 0;
    while d < week.len()
        invariant
            d <= week.len(),
            forall|e: int, j: int|
                0 <= e < d && 0 <= j < week@[e]@.len() ==> has_size(#[trigger] week@[e]@[j], r),
        decreases week.len() - d,
    {
        let day = &week[d];
        let mut j: usize = 0;
        while j < day.len()
            invariant
                d < week.len(),
                day@ == week@[d as int]@,
                j <= day.len(),
                forall|e: int, k: int|
                    0 <= e < d && 0 <= k < week@[e]@.len() ==> has_size(#[trigger] week@[e]@[k], r),
                forall|k: int| 0 <= k < j ==> has_size(#[trigger] week@[d as int]@[k], r),
            decreases day.len() - j,
        {
            if !clip_has_size(&day[j], r) {
                return false;
            }
            j = j + 1;
        }
        d = d + 1;
    }
    true
}

/// Path without its trailing slashes, as `str::trim_end_matches('/')`
/// leaves it.
pub open spec fn trim_end_slashes(s: Seq<char>) -> Seq<char>
    decreases s.len(),
{
    if s.len() > 0 && s.last() == '/' {
        trim_end_slashes(s.drop_last())
    } else {
        s
    }
}

/// Value of the first query pair of the given name, if any.
pub open spec fn first_value(q: Seq<(Seq<char>, Seq<char>)>, name: Seq<char>) -> Option<Seq<char>>
    decreases q.len(),
{
    if q.len() == 0 {
        None
    } else if q[0].0 == name {
        Some(q[0].1)
    } else {
        first_value(q.drop_first(), name)
    }
}

/// Reasons for a URL not being a YouTube video link.
#[derive(Clone, Copy, Debug, PartialEq, Eq, Structural)]
pub enum YoutubeUrlError {
    /// The scheme is neither `http` nor `https`.
    NotHttp,
    /// The host is neither `youtube.com` nor `www.youtube.com`.
    NotYoutube,
    /// The path is not `/watch`.
    NotFullUrl,
    /// The query has no `v` parameter.
    NoVideoId,
}

/// ID of the YouTube video that the given URL links to, or the first
/// problem found with it.
pub open spec fn youtube_id_spec(u: WebUrlView) -> Result<Seq<char>, YoutubeUrlError> {
    if !(u.scheme == "http"@ || u.scheme == "https"@) {
        Err(YoutubeUrlError::NotHttp)
    } else if !(u.host == Some("youtube.com"@) || u.host == Some("www.youtube.com"@)) {
        Err(YoutubeUrlError::NotYoutube)
    } else if trim_end_slashes(u.path) != "/watch"@ {
        Err(YoutubeUrlError::NotFullUrl)
    } else {
        match first_value(u.query, "v"@) {
            Some(id) => Ok(id),
            None => Err(YoutubeUrlError::NoVideoId),
        }
    }
}

/// Whether the host of a URL is `youtube.com` or `www.youtube.com`.
fn is_youtube_host(url: &WebUrl) -> (res: bool)
    ensures
        res == (url@.host == Some("youtube.com"@) || url@.host == Some("www.youtube.com"@)),
{
    match url.host_str() {
        Some(h) => str_eq(h, "youtube.com") || str_eq(h, "www.youtube.com"),
        None => false,
    }
}

/// Whether the path of a URL is `/watch`, trailing slashes aside.
fn is_watch_path(url: &WebUrl) -> (res: bool)
    ensures
        res == (trim_end_slashes(url@.path) == "/watch"@),
{
    let cs = chars_of(url.path());
    let mut n = cs.len();
    assert(cs@.take(n as int) =~= cs@);
    while n > 0 && cs[n - 1] == '/'
        invariant
            n <= cs.len(),
            trim_end_slashes(cs@) == trim_end_slashes(cs@.take(n as int)),
        decreases n,
    {
        assert(cs@.take(n as int).drop_last() =~= cs@.take(n - 1));
        n = n - 1;
    }
    let mut trimmed: Vec<char> = Vec::new();
    let mut i: usize = 0;
    while i < n
        invariant
            n <= cs.len(),
            i <= n,
            trimmed@ == cs@.take(i as int),
        decreases n - i,
    {
        trimmed.push(cs[i]);
        i = i + 1;
        assert(trimmed@ =~= cs@.take(i as int));
    }
    assert(trim_end_slashes(cs@.take(n as int)) == cs@.take(n as int));
    let watch = chars_of("/watch");
    chars_eq(&trimmed, &watch)
}

/// Value of the first `v` query parameter of a URL, if any.
fn video_id_param(url: &WebUrl) -> (res: Option<String>)
    ensures
        match res {
            Some(v) => first_value(url@.query, "v"@) == Some(v@),
            None => first_value(url@.query, "v"@) is None,
        },
{
    let pairs = url.query_pairs();
    let ghost q = url@.query;
    let mut i: usize = 0;
    assert(q.skip(0) =~= q);
    while i < pairs.len()
        invariant
            i <= pairs.len(),
            q == pairs@.map_values(|p: (String, String)| (p.0@, p.1@)),
            q == url@.query,
            first_value(q, "v"@) == first_value(q.skip(i as int), "v"@),
        decreases pairs.len() - i,
    {
        let (name, value) = &pairs[i];
        assert(q[i as int] == (name@, value@));
        assert(q.skip(i as int)[0] == (name@, value@));
        if str_eq(name.as_str(), "v") {
            let v = value.clone();
            assert(q.skip(i as int).len() > 0);
            assert(first_value(q.skip(i as int), "v"@) == Some(value@));
            return Some(v);
        }
        assert(q.skip(i as int).drop_first() =~= q.skip(i + 1));
        i = i + 1;
    }
    None
}

/// Reasons for a [`Clip`] request being refused.
#[derive(Clone, Debug)]
pub enum ClipError {
    /// The clip has an empty title.
    EmptyTitle,
    /// The URL of the clip is not a correct YouTube video link.
    IncorrectUrl(YoutubeUrlError),
    /// The info about the clip's video could not be retrieved.
    Fetch(String),
    /// The clip starts at or after the end of its video.
    StartsAfterVideoEnd,
    /// The clip finishes after the end of its video.
    FinishesAfterVideoEnd,
    /// The clip does not start at least one second before it finishes.
    NotPositive,
    /// The duration of the clip is not a multiple of the segment duration.
    NotDivisible,
}

/// Request to add a clip to a playlist.
#[derive(Clone, Debug)]
pub struct ClipRequest {
    /// YouTube video link of the clip.
    pub url: WebUrl,
    /// Human-readable title of the clip.
    pub title: String,
    /// Starting position in the video, in seconds.
    pub from: u64,
    /// Finishing position in the video, in seconds.
    pub to: u64,
}

/// The first problem with a clip request, given the info retrieved about
/// its video and the segment duration of its playlist; `None` when there is
/// none.
pub open spec fn clip_error(req: ClipRequest, video: Result<Video, String>, seg: nat) -> Option<
    ClipError,
> {
    if req.title@.len() == 0 {
        Some(ClipError::EmptyTitle)
    } else {
        match youtube_id_spec(req.url@) {
            Err(e) => Some(ClipError::IncorrectUrl(e)),
            Ok(_) => match video {
                Err(e) => Some(ClipError::Fetch(e)),
                Ok(v) => if req.from >= v.duration {
                    Some(ClipError::StartsAfterVideoEnd)
                } else if req.to > v.duration {
                    Some(ClipError::FinishesAfterVideoEnd)
                } else if req.to <= req.from {
                    Some(ClipError::NotPositive)
                } else if (req.to - req.from) as nat % seg != 0 {
                    Some(ClipError::NotDivisible)
                } else {
                    None
                },
            },
        }
    }
}

/// The last source of the given resolution among the given ones, if any.
pub open spec fn last_source_of(sources: Seq<Source>, r: Resolution) -> Option<Source>
    decreases sources.len(),
{
    if sources.len() == 0 {
        None
    } else if sources.last().size == r {
        Some(sources.last())
    } else {
        last_source_of(sources.drop_last(), r)
    }
}

/// Whether a clip's source file is the given video source, not yet cached
/// locally.
pub open spec fn src_from_source(s: Src, so: Source) -> bool {
    &&& s.url.upstream@ == so.src@
    &&& s.url.local is None
    &&& s.mime_type@ == so.mime_type@
    &&& s.size == so.size
}

/// Whether the given clip sources are made of the given video sources: for
/// each resolution, the last video source of it, and nothing else.
pub open spec fn sources_from(srcs: Seq<Src>, sources: Seq<Source>) -> bool {
    &&& distinct_sizes(srcs)
    &&& forall|r: Resolution| match (#[trigger] src_of(srcs, r), last_source_of(sources, r)) {
        (Some(s), Some(so)) => src_from_source(s, so),
        (None, None) => true,
        _ => false,
    }
}

/// Whether the given clip is the one made of the given request and video.
pub open spec fn clip_from(c: Clip, req: ClipRequest, v: Video) -> bool {
    &&& youtube_id_spec(req.url@) == Ok::<Seq<char>, YoutubeUrlError>(c.youtube_id@)
    &&& c.title@ == req.title@
    &&& c.view == (ClipView { from: req.from, to: req.to })
    &&& sources_from(c.sources@, v.sources@)
}

/// The last source of the given resolution among the given ones.
fn find_last_source(sources: &Vec<Source>, r: Resolution) -> (res: Option<&Source>)
    ensures
        match res {
            Some(so) => last_source_of(sources@, r) == Some(*so),
            None => last_source_of(sources@, r) is None,
        },
{
    let mut i = sources.len();
    assert(sources@.take(i as int) =~= sources@);
    while i > 0
        invariant
            i <= sources.len(),
            last_source_of(sources@, r) == last_source_of(sources@.take(i as int), r),
        decreases i,
    {
        assert(sources@.take(i as int).drop_last() =~= sources@.take(i - 1));
        if sources[i - 1].size == r {
            return Some(&sources[i - 1]);
        }
        i = i - 1;
    }
    None
}

/// Lemma: looking a resolution up in sources pushed in rank order.
proof fn lemma_src_of_push(srcs: Seq<Src>, s: Src, r: Resolution)
    ensures
        src_of(srcs.push(s), r) == (if src_of(srcs, r) is Some {
            src_of(srcs, r)
        } else if s.size == r {
            Some(s)
        } else {
            None
        }),
    decreases srcs.len(),
{
    if srcs.len() == 0 {
        assert(seq![s].drop_first() =~= Seq::<Src>::empty());
        assert(srcs.push(s) =~= seq![s]);
    } else {
        assert(srcs.push(s).drop_first() =~= srcs.drop_first().push(s));
        lemma_src_of_push(srcs.drop_first(), s, r);
    }
}

/// Lemma: a resolution not among the sources is not looked up.
proof fn lemma_src_of_none(srcs: Seq<Src>, r: Resolution)
    requires
        forall|i: int| 0 <= i < srcs.len() ==> (#[trigger] srcs[i]).size != r,
    ensures
        src_of(srcs, r) is None,
    decreases srcs.len(),
{
    if srcs.len() > 0 {
        assert(srcs[0].size != r);
        lemma_src_of_none(srcs.drop_first(), r);
        assert forall|i: int| 0 <= i < srcs.drop_first().len() implies (
        #[trigger] srcs.drop_first()[i]).size != r by {
            assert(srcs.drop_first()[i] == srcs[i + 1]);
        }
    }
}

impl Clip {
    /// Validates whether the given URL is a correct YouTube video link and
    /// parses the ID of the video from it: the scheme must be `http` or
    /// `https`, the host `youtube.com` or `www.youtube.com`, the path
    /// `/watch`, and the query must hold a `v` parameter.
    pub fn parse_youtube_id(url: &WebUrl) -> (res: Result<YoutubeId, YoutubeUrlError>)
        ensures
            match res {
                Ok(id) => youtube_id_spec(url@) == Ok::<Seq<char>, YoutubeUrlError>(id@),
                Err(e) => youtube_id_spec(url@) == Err::<Seq<char>, YoutubeUrlError>(e),
            },
    {
        let scheme = url.scheme();
        if !(str_eq(scheme, "http") || str_eq(scheme, "https")) {
            return Err(YoutubeUrlError::NotHttp);
        }
        if !is_youtube_host(url) {
            return Err(YoutubeUrlError::NotYoutube);
        }
        if !is_watch_path(url) {
            return Err(YoutubeUrlError::NotFullUrl);
        }
        match video_id_param(url) {
            Some(id) => Ok(id),
            None => Err(YoutubeUrlError::NoVideoId),
        }
    }

    /// Makes the sources of a clip out of the sources of its video: for each
    /// resolution, the last video source of it, lowest resolution first.
    fn sources_of_video(sources: &Vec<Source>) -> (res: Vec<Src>)
        ensures
            sources_from(res@, sources@),
    {
        let all = Resolution::all();
        let mut res: Vec<Src> = Vec::new();
        let mut k: usize = 0;
        while k < all.len()
            invariant
                k <= all.len(),
                all@ == all_resolutions(),
                forall|i: int| 0 <= i < res@.len() ==> resolution_rank((#[trigger] res@[i]).size) < k,
                distinct_sizes(res@),
                forall|r: Resolution|
                    resolution_rank(r) < k ==> match (#[trigger] src_of(res@, r), last_source_of(
                        sources@,
                        r,
                    )) {
                        (Some(s), Some(so)) => src_from_source(s, so),
                        (None, None) => true,
                        _ => false,
                    },
                forall|r: Resolution| resolution_rank(r) >= k ==> (#[trigger] src_of(res@, r)) is None,
            decreases all.len() - k,
        {
            let r = all[k];
            assert(resolution_rank(r) == k);
            let ghost before = res@;
            match find_last_source(sources, r) {
                Some(so) => {
                    proof {
                        lemma_last_source_size(sources@, r);
                    }
                    let src = Src {
                        url: SrcUrl { upstream: so.src.clone(), local: None },
                        mime_type: so.mime_type.clone(),
                        size: so.size,
                    };
                    res.push(src);
                    proof {
                        assert forall|x: Resolution| #[trigger] src_of(res@, x) == (if src_of(
                            before,
                            x,
                        ) is Some {
                            src_of(before, x)
                        } else if src.size == x {
                            Some(src)
                        } else {
                            None
                        }) by {
                            lemma_src_of_push(before, src, x);
                        }
                        assert(distinct_sizes(res@)) by {
                            assert forall|i: int, j: int|
                                0 <= i < j < res@.len() implies (#[trigger] res@[i]).size != (
                            #[trigger] res@[j]).size by {
                                if j == res@.len() - 1 {
                                    assert(resolution_rank(res@[i].size) < k);
                                    assert(res@[j].size == r);
                                } else {
                                    assert(res@[i] == before[i]);
                                    assert(res@[j] == before[j]);
                                }
                            }
                        }
                        assert(last_source_of(sources@, r) == Some(*so));
                        assert(so.size == r) by {
                            lemma_last_source_size(sources@, r);
                        }
                    }
                },
                None => {},
            }
            k = k + 1;
        }
        proof {
            assert forall|r: Resolution| match (#[trigger] src_of(res@, r), last_source_of(
                sources@,
                r,
            )) {
                (Some(s), Some(so)) => src_from_source(s, so),
                (None, None) => true,
                _ => false,
            } by {
                assert(resolution_rank(r) < 5);
            }
        }
        res
    }

    /// Parses a new clip out of the given request, the info retrieved about
    /// its video (or why it could not be), and the segment duration of its
    /// playlist.
    ///
    /// Fails, in this order of checks, if the title is empty, if the URL is
    /// not a correct YouTube video link, if the video info could not be
    /// retrieved, if the clip starts at or after the end of the video, if it
    /// finishes after it, if it does not last at least a second, or if its
    /// duration is not a multiple of the segment duration.
    pub fn parse_request(
        req: &ClipRequest,
        video: &Result<Video, String>,
        segment_duration: SegmentDuration,
    ) -> (res: Result<Clip, ClipError>)
        ensures
            match res {
                Ok(c) => clip_error(*req, *video, segment_duration.secs()) is None
                    && clip_from(c, *req, video->Ok_0),
                Err(e) => clip_error(*req, *video, segment_duration.secs()) == Some(e),
            },
    {
        if req.title.as_str().is_empty() {
            return Err(ClipError::EmptyTitle);
        }
        let youtube_id = match Self::parse_youtube_id(&req.url) {
            Ok(id) => id,
            Err(e) => return Err(ClipError::IncorrectUrl(e)),
        };
        let v = match video {
            Ok(v) => v,
            Err(e) => return Err(ClipError::Fetch(e.clone())),
        };
        if req.from >= v.duration {
            return Err(ClipError::StartsAfterVideoEnd);
        }
        if req.to > v.duration {
            return Err(ClipError::FinishesAfterVideoEnd);
        }
        if req.to <= req.from {
            return Err(ClipError::NotPositive);
        }
        let clip_secs = req.to - req.from;
        let segment_secs = segment_duration.as_duration();
        if clip_secs % segment_secs != 0 {
            return Err(ClipError::NotDivisible);
        }
        Ok(Clip {
            youtube_id,
            title: req.title.clone(),
            view: ClipView { from: req.from, to: req.to },
            sources: Self::sources_of_video(&v.sources),
        })
    }
}

/// The source that is looked up for a resolution has that resolution.
proof fn lemma_last_source_size(sources: Seq<Source>, r: Resolution)
    ensures
        last_source_of(sources, r) matches Some(so) ==> so.size == r,
    decreases sources.len(),
{
    if sources.len() > 0 && sources.last().size != r {
        lemma_last_source_size(sources.drop_last(), r);
    }
}

/// Request to set up a playlist.
#[derive(Clone, Debug)]
pub struct PlaylistRequest {
    /// Human-readable title of the playlist.
    pub title: String,
    /// Language of the audience, as an ISO 639-3 code.
    pub lang: String,
    /// Timezone of the audience.
    pub tz: TimeZone,
    /// Duration of the segments to serve the clips with; 10 seconds when
    /// absent.
    pub segment_duration: Option<SegmentDuration>,
    /// Clip requests of each weekday, Monday first: seven lists.
    pub clips: Vec<Vec<ClipRequest>>,
}

/// Reasons for a [`Playlist`] request being refused.
#[derive(Clone, Debug)]
pub enum PlaylistError {
    /// The playlist has an empty title.
    EmptyTitle,
    /// Some clip of the playlist is refused.
    Clip(ClipError),
    /// The clips of the given weekday last more than 24 hours in total.
    DayTooLong(Weekday),
    /// The clips of the given weekday last in total a time that does not
    /// divide 24 hours.
    DayNotFraction(Weekday),
}

/// Total duration, in seconds, of the given clip requests.
pub open spec fn req_total(s: Seq<ClipRequest>) -> int
    decreases s.len(),
{
    if s.len() == 0 {
        0
    } else {
        req_total(s.drop_last()) + (s.last().to - s.last().from)
    }
}

/// The first problem among the clip requests of a day from the `j`-th one
/// on.
pub open spec fn day_first_error(
    reqs: Seq<ClipRequest>,
    vids: Seq<Result<Video, String>>,
    seg: nat,
    j: int,
) -> Option<ClipError>
    decreases reqs.len() - j,
{
    if j < 0 || j >= reqs.len() {
        None
    } else {
        match clip_error(reqs[j], vids[j], seg) {
            Some(e) => Some(e),
            None => day_first_error(reqs, vids, seg, j + 1),
        }
    }
}

/// The first problem among the clip requests of a week from the `d`-th day
/// on, days in order and clips of a day in order.
pub open spec fn week_first_error(
    reqs: Seq<Vec<ClipRequest>>,
    vids: Seq<Vec<Result<Video, String>>>,
    seg: nat,
    d: int,
) -> Option<ClipError>
    decreases reqs.len() - d,
{
    if d < 0 || d >= reqs.len() {
        None
    } else {
        match day_first_error(reqs[d]@, vids[d]@, seg, 0) {
            Some(e) => Some(e),
            None => week_first_error(reqs, vids, seg, d + 1),
        }
    }
}

/// The first weekday, from the `d`-th one on, whose clips do not fit well
/// into 24 hours: more than that in total, or a total that does not divide
/// it. Days without clips are fine.
pub open spec fn week_total_error(reqs: Seq<Vec<ClipRequest>>, d: int) -> Option<PlaylistError>
    decreases reqs.len() - d,
{
    if d < 0 || d >= reqs.len() {
        None
    } else {
        let t = req_total(reqs[d]@);
        if reqs[d]@.len() > 0 && t > SECS_IN_DAY {
            Some(PlaylistError::DayTooLong(weekday_at(d as nat)))
        } else if reqs[d]@.len() > 0 && SECS_IN_DAY as int % t != 0 {
            Some(PlaylistError::DayNotFraction(weekday_at(d as nat)))
        } else {
            week_total_error(reqs, d + 1)
        }
    }
}

/// Segment duration that a playlist request asks for.
pub open spec fn requested_segment_secs(req: PlaylistRequest) -> nat {
    match req.segment_duration {
        Some(sd) => sd.secs(),
        None => 10,
    }
}

/// The first problem with a playlist request, given the info retrieved
/// about the videos of its clips; `None` when there is none.
pub open spec fn playlist_error(req: PlaylistRequest, vids: Seq<Vec<Result<Video, String>>>) -> Option<
    PlaylistError,
> {
    if req.title@.len() == 0 {
        Some(PlaylistError::EmptyTitle)
    } else {
        match week_first_error(req.clips@, vids, requested_segment_secs(req), 0) {
            Some(e) => Some(PlaylistError::Clip(e)),
            None => week_total_error(req.clips@, 0),
        }
    }
}

/// Whether the given videos are laid out as the clip requests of a week.
pub open spec fn videos_match(reqs: Seq<Vec<ClipRequest>>, vids: Seq<Vec<Result<Video, String>>>) -> bool {
    &&& reqs.len() == 7
    &&& vids.len() == 7
    &&& forall|d: int| 0 <= d < 7 ==> (#[trigger] vids[d])@.len() == reqs[d]@.len()
}

/// Whether the total durations of the days of a playlist request fit into
/// `u64` whenever all its clips are fine (otherwise adding them up would
/// overflow).
pub open spec fn totals_fit(req: PlaylistRequest, vids: Seq<Vec<Result<Video, String>>>) -> bool {
    week_first_error(req.clips@, vids, requested_segment_secs(req), 0) is None ==> forall|d: int|
        0 <= d < 7 ==> req_total(#[trigger] req.clips@[d]@) <= u64::MAX
}

/// Whether the given playlist is the one made of the given request and
/// videos.
pub open spec fn playlist_from(
    pl: Playlist,
    slug: Seq<char>,
    req: PlaylistRequest,
    vids: Seq<Vec<Result<Video, String>>>,
) -> bool {
    &&& pl.slug.view() == slug
    &&& pl.title@ == req.title@
    &&& pl.lang@ == req.lang@
    &&& pl.tz == req.tz
    &&& pl.segment_duration.secs() == requested_segment_secs(req)
    &&& pl.initial is None
    &&& pl.clips@.len() == 7
    &&& forall|d: int| 0 <= d < 7 ==> (#[trigger] pl.clips@[d])@.len() == req.clips@[d]@.len()
    &&& forall|d: int, j: int|
        0 <= d < 7 && 0 <= j < req.clips@[d]@.len() ==> clip_from(
            #[trigger] pl.clips@[d]@[j],
            req.clips@[d]@[j],
            vids[d]@[j]->Ok_0,
        )
}

/// Partial totals of positive durations never exceed the whole total.
proof fn lemma_req_total_prefix(s: Seq<ClipRequest>, j: int)
    requires
        0 <= j <= s.len(),
        forall|k: int| 0 <= k < s.len() ==> (#[trigger] s[k]).from < s[k].to,
    ensures
        0 <= req_total(s.take(j)) <= req_total(s),
    decreases s.len() - j,
{
    if j < s.len() {
        lemma_req_total_prefix(s, j + 1);
        assert(s.take(j + 1).drop_last() =~= s.take(j));
    } else {
        assert(s.take(j) =~= s);
    }
    lemma_req_total_nonneg(s.take(j));
}

/// Each positive duration is at most the total of them all.
proof fn lemma_req_total_elem(s: Seq<ClipRequest>, k: int)
    requires
        0 <= k < s.len(),
        forall|i: int| 0 <= i < s.len() ==> (#[trigger] s[i]).from < s[i].to,
    ensures
        s[k].to - s[k].from <= req_total(s),
    decreases s.len(),
{
    assert forall|i: int| 0 <= i < s.drop_last().len() implies (#[trigger] s.drop_last()[i]).from
        < s.drop_last()[i].to by {
        assert(s.drop_last()[i] == s[i]);
    }
    lemma_req_total_nonneg(s.drop_last());
    if k < s.len() - 1 {
        lemma_req_total_elem(s.drop_last(), k);
        assert(s.drop_last()[k] == s[k]);
    } else {
        assert(s[k] == s.last());
    }
}

/// Totals of positive durations are not negative.
proof fn lemma_req_total_nonneg(s: Seq<ClipRequest>)
    requires
        forall|k: int| 0 <= k < s.len() ==> (#[trigger] s[k]).from < s[k].to,
    ensures
        req_total(s) >= 0,
    decreases s.len(),
{
    if s.len() > 0 {
        assert forall|k: int| 0 <= k < s.drop_last().len() implies (
        #[trigger] s.drop_last()[k]).from < s.drop_last()[k].to by {
            assert(s.drop_last()[k] == s[k]);
        }
        lemma_req_total_nonneg(s.drop_last());
    }
}

/// A day without problems from the `j`-th clip on has no problem at any of
/// those clips.
proof fn lemma_day_no_error(
    reqs: Seq<ClipRequest>,
    vids: Seq<Result<Video, String>>,
    seg: nat,
    j: int,
    k: int,
)
    requires
        0 <= j <= k < reqs.len(),
        day_first_error(reqs, vids, seg, j) is None,
    ensures
        clip_error(reqs[k], vids[k], seg) is None,
    decreases k - j,
{
    if j < k {
        lemma_day_no_error(reqs, vids, seg, j + 1, k);
    }
}

/// A week without problems from the `d`-th day on has no problem in any of
/// those days.
proof fn lemma_week_no_error(
    reqs: Seq<Vec<ClipRequest>>,
    vids: Seq<Vec<Result<Video, String>>>,
    seg: nat,
    d: int,
    e: int,
)
    requires
        0 <= d <= e < reqs.len(),
        week_first_error(reqs, vids, seg, d) is None,
    ensures
        day_first_error(reqs[e]@, vids[e]@, seg, 0) is None,
    decreases e - d,
{
    if d < e {
        lemma_week_no_error(reqs, vids, seg, d + 1, e);
    }
}

impl Playlist {
    /// Parses a new playlist out of the given request and the info retrieved
    /// about the video of each of its clips (or why it could not be), laid
    /// out as the clip requests.
    ///
    /// Fails if the title is empty, if some clip is refused (the first one,
    /// days in order), or if the clips of some weekday (the first one) do
    /// not fit well into 24 hours: more than that in total, or a total that
    /// does not divide 24 hours.
    pub fn parse_request(
        slug: PlaylistSlug,
        req: &PlaylistRequest,
        videos: &Vec<Vec<Result<Video, String>>>,
    ) -> (res: Result<Playlist, PlaylistError>)
        requires
            videos_match(req.clips@, videos@),
            totals_fit(*req, videos@),
        ensures
            match res {
                Ok(pl) => playlist_error(*req, videos@) is None && playlist_from(
                    pl,
                    slug.view(),
                    *req,
                    videos@,
                ) && pl.wf(),
                Err(e) => playlist_error(*req, videos@) == Some(e),
            },
    {
        if req.title.as_str().is_empty() {
            return Err(PlaylistError::EmptyTitle);
        }
        let segment_duration = match req.segment_duration {
            Some(sd) => sd,
            None => SegmentDuration::default(),
        };
        let ghost seg = segment_duration.secs();
        assert(seg == requested_segment_secs(*req));
        let mut clips: Vec<Vec<Clip>> = Vec::new();
        let mut d: usize = 0;
        while d < 7
            invariant
                d <= 7,
                req.title@.len() > 0,
                videos_match(req.clips@, videos@),
                seg == segment_duration.secs(),
                seg == requested_segment_secs(*req),
                week_first_error(req.clips@, videos@, seg, 0) == week_first_error(
                    req.clips@,
                    videos@,
                    seg,
                    d as int,
                ),
                clips@.len() == d,
                forall|e: int| 0 <= e < d ==> (#[trigger] clips@[e])@.len() == req.clips@[e]@.len(),
                forall|e: int, k: int|
                    0 <= e < d && 0 <= k < req.clips@[e]@.len() ==> clip_from(
                        #[trigger] clips@[e]@[k],
                        req.clips@[e]@[k],
                        videos@[e]@[k]->Ok_0,
                    ) && clip_error(req.clips@[e]@[k], videos@[e]@[k], seg) is None,
            decreases 7 - d,
        {
            let reqs = &req.clips[d];
            let vids = &videos[d];
            let mut day: Vec<Clip> = Vec::new();
            let mut j: usize = 0;
            while j < reqs.len()
                invariant
                    d < 7,
                    seg == segment_duration.secs(),
                    seg == requested_segment_secs(*req),
                    req.title@.len() > 0,
                    week_first_error(req.clips@, videos@, seg, 0) == week_first_error(
                        req.clips@,
                        videos@,
                        seg,
                        d as int,
                    ),
                    videos_match(req.clips@, videos@),
                    reqs@ == req.clips@[d as int]@,
                    vids@ == videos@[d as int]@,
                    j <= reqs.len(),
                    vids@.len() == reqs@.len(),
                    day_first_error(reqs@, vids@, seg, 0) == day_first_error(
                        reqs@,
                        vids@,
                        seg,
                        j as int,
                    ),
                    day@.len() == j,
                    forall|k: int|
                        0 <= k < j ==> clip_from(#[trigger] day@[k], reqs@[k], vids@[k]->Ok_0)
                            && clip_error(reqs@[k], vids@[k], seg) is None,
                decreases reqs.len() - j,
            {
                match Clip::parse_request(&reqs[j], &vids[j], segment_duration) {
                    Ok(c) => {
                        let ghost gc = c;
                        day.push(c);
                        proof {
                            assert(day@[j as int] == gc);
                            assert(clip_from(gc, reqs@[j as int], vids@[j as int]->Ok_0));
                            assert(clip_error(reqs@[j as int], vids@[j as int], seg) is None);
                        }
                    },
                    Err(e) => {
                        proof {
                            assert(day_first_error(reqs@, vids@, seg, j as int) == Some(e));
                            assert(week_first_error(req.clips@, videos@, seg, d as int) == Some(
                                e,
                            ));
                            assert(week_first_error(req.clips@, videos@, seg, 0) == Some(e));
                            assert(playlist_error(*req, videos@) == Some(PlaylistError::Clip(e)));
                        }
                        return Err(PlaylistError::Clip(e));
                    },
                }
                j = j + 1;
            }
            clips.push(day);
            d = d + 1;
        }
        assert(week_first_error(req.clips@, videos@, seg, 0) is None);
        let mut d: usize = 0;
        while d < 7
            invariant
                d <= 7,
                req.title@.len() > 0,
                videos_match(req.clips@, videos@),
                totals_fit(*req, videos@),
                seg == requested_segment_secs(*req),
                week_first_error(req.clips@, videos@, seg, 0) is None,
                clips@.len() == 7,
                forall|e: int| 0 <= e < 7 ==> (#[trigger] clips@[e])@.len() == req.clips@[e]@.len(),
                forall|e: int, k: int|
                    0 <= e < 7 && 0 <= k < req.clips@[e]@.len() ==> clip_from(
                        #[trigger] clips@[e]@[k],
                        req.clips@[e]@[k],
                        videos@[e]@[k]->Ok_0,
                    ) && clip_error(req.clips@[e]@[k], videos@[e]@[k], seg) is None,
                week_total_error(req.clips@, 0) == week_total_error(req.clips@, d as int),
                forall|e: int, k: int|
                    0 <= e < d && 0 <= k < req.clips@[e]@.len() ==> (#[trigger] req.clips@[e]@[k]).to
                        - req.clips@[e]@[k].from <= SECS_IN_DAY,
            decreases 7 - d,
        {
            let day = &clips[d];
            let ghost reqs = req.clips@[d as int]@;
            proof {
                assert forall|k: int| 0 <= k < reqs.len() implies (#[trigger] reqs[k]).from
                    < reqs[k].to by {
                    assert(clip_from(
                        clips@[d as int]@[k],
                        req.clips@[d as int]@[k],
                        videos@[d as int]@[k]->Ok_0,
                    ));
                    assert(clip_error(req.clips@[d as int]@[k], videos@[d as int]@[k], seg) is None);
                }
                assert(req_total(reqs) <= u64::MAX);
            }
            if day.len() > 0 {
                let mut total: u64 = 0;
                let mut j: usize = 0;
                while j < day.len()
                    invariant
                        day@.len() == reqs.len(),
                        j <= day.len(),
                        forall|k: int| 0 <= k < reqs.len() ==> (#[trigger] reqs[k]).from < reqs[k].to,
                        forall|k: int|
                            0 <= k < reqs.len() ==> (#[trigger] day@[k]).view.from == reqs[k].from
                                && day@[k].view.to == reqs[k].to,
                        req_total(reqs) <= u64::MAX,
                        total == req_total(reqs.take(j as int)),
                    decreases day.len() - j,
                {
                    proof {
                        lemma_req_total_prefix(reqs, j + 1);
                        assert(reqs.take(j + 1).drop_last() =~= reqs.take(j as int));
                    }
                    total = total + (day[j].view.to - day[j].view.from);
                    j = j + 1;
                }
                assert(reqs.take(day.len() as int) =~= reqs);
                proof {
                    assert forall|k: int| 0 <= k < reqs.drop_last().len() implies (
                    #[trigger] reqs.drop_last()[k]).from < reqs.drop_last()[k].to by {
                        assert(reqs.drop_last()[k] == reqs[k]);
                    }
                    lemma_req_total_nonneg(reqs.drop_last());
                    assert(reqs[reqs.len() - 1] == reqs.last());
                    assert(total > 0);
                }
                if total > SECS_IN_DAY {
                    return Err(PlaylistError::DayTooLong(Weekday::from_days_from_monday(d)));
                }
                if SECS_IN_DAY % total != 0 {
                    return Err(PlaylistError::DayNotFraction(Weekday::from_days_from_monday(d)));
                }
                proof {
                    assert forall|k: int| 0 <= k < reqs.len() implies (#[trigger] reqs[k]).to
                        - reqs[k].from <= SECS_IN_DAY by {
                        lemma_req_total_elem(reqs, k);
                    }
                }
            }
            d = d + 1;
        }
        let pl = Playlist {
            slug,
            title: req.title.clone(),
            lang: req.lang.clone(),
            tz: req.tz,
            segment_duration,
            initial: None,
            clips,
        };
        assert(pl.wf());
        Ok(pl)
    }
}

} // verus!

verus! {

/// State of the `vod-meta` server: its playlists, with different slugs.
#[derive(Debug)]
pub struct State {
    /// Playlists, with different slugs.
    pub playlists: Vec<Playlist>,
}

/// Whether no two playlists have the same slug.
pub open spec fn slugs_unique(pls: Seq<Playlist>) -> bool {
    forall|a: int, b: int|
        0 <= a < b < pls.len() ==> (#[trigger] pls[a]).slug.view() != (#[trigger] pls[b]).slug.view()
}

/// Request of the playlist with the given slug, along with the results of
/// looking up the videos of its clips.
pub type PlaylistInput = (PlaylistSlug, PlaylistRequest, Vec<Vec<Result<Video, String>>>);

/// Index of the first of the playlist inputs that fails to parse, if any.
pub open spec fn first_failure(ins: Seq<PlaylistInput>) -> Option<int> {
    if exists|i: int|
        0 <= i < ins.len() && playlist_error(ins[i].1, ins[i].2@) is Some && forall|k: int|
            0 <= k < i ==> playlist_error(#[trigger] ins[k].1, ins[k].2@) is None {
        Some(
            choose|i: int|
                0 <= i < ins.len() && playlist_error(ins[i].1, ins[i].2@) is Some && forall|k: int|
                    0 <= k < i ==> playlist_error(#[trigger] ins[k].1, ins[k].2@) is None,
        )
    } else {
        None
    }
}

impl State {
    /// An empty state.
    pub fn new() -> (res: State)
        ensures
            res.playlists@.len() == 0,
    {
        State { playlists: Vec::new() }
    }

    /// Parses a new state from the requests of its playlists: fails with
    /// the error of the first playlist that fails to parse.
    pub fn parse_request(ins: Vec<PlaylistInput>) -> (res: Result<State, PlaylistError>)
        requires
            forall|i: int|
                0 <= i < ins@.len() ==> videos_match((#[trigger] ins@[i]).1.clips@, ins@[i].2@)
                    && totals_fit(ins@[i].1, ins@[i].2@),
            forall|a: int, b: int|
                0 <= a < b < ins@.len() ==> (#[trigger] ins@[a]).0.view() != (#[trigger] ins@[
                    b
                ]).0.view(),
        ensures
            match first_failure(ins@) {
                Some(i) => res == Err::<State, PlaylistError>(playlist_error(ins@[i].1, ins@[i].2@)->Some_0),
                None => res matches Ok(st) && {
                    &&& st.playlists@.len() == ins@.len()
                    &&& slugs_unique(st.playlists@)
                    &&& forall|i: int|
                        0 <= i < ins@.len() ==> {
                            &&& playlist_from(
                                #[trigger] st.playlists@[i],
                                ins@[i].0.view(),
                                ins@[i].1,
                                ins@[i].2@,
                            )
                            &&& st.playlists@[i].wf()
                        }
                },
            },
    {
        let ghost all = ins@;
        let mut rest = ins;
        let mut pls: Vec<Playlist> = Vec::new();
        while rest.len() > 0
            invariant
                pls@.len() <= all.len(),
                all == ins@,
                rest@ == all.skip(pls@.len() as int),
                forall|i: int|
                    0 <= i < all.len() ==> videos_match((#[trigger] all[i]).1.clips@, all[i].2@)
                        && totals_fit(all[i].1, all[i].2@),
                forall|a: int, b: int|
                    0 <= a < b < all.len() ==> (#[trigger] all[a]).0.view() != (#[trigger] all[
                        b
                    ]).0.view(),
                forall|k: int| 0 <= k < pls@.len() ==> playlist_error(#[trigger] all[k].1, all[k].2@) is None,
                forall|i: int|
                    0 <= i < pls@.len() ==> {
                        &&& playlist_from(#[trigger] pls@[i], all[i].0.view(), all[i].1, all[i].2@)
                        &&& pls@[i].wf()
                    },
            decreases rest@.len(),
        {
            let ghost i = pls@.len() as int;
            let (slug, req, videos) = rest.remove(0);
            assert((slug, req, videos) == all[i]);
            match Playlist::parse_request(slug, &req, &videos) {
                Ok(pl) => {
                    pls.push(pl);
                },
                Err(e) => {
                    proof {
                        assert(0 <= i < all.len() && playlist_error(all[i].1, all[i].2@) is Some
                            && forall|k: int|
                            0 <= k < i ==> playlist_error(#[trigger] all[k].1, all[k].2@) is None);
                        let c = choose|c: int|
                            0 <= c < all.len() && playlist_error(all[c].1, all[c].2@) is Some
                                && forall|k: int|
                                0 <= k < c ==> playlist_error(#[trigger] all[k].1, all[k].2@) is None;
                        if c < i {
                            assert(playlist_error(all[c].1, all[c].2@) is None);
                        } else if i < c {
                            assert(playlist_error(all[i].1, all[i].2@) is None);
                        }
                        assert(first_failure(all) == Some(i));
                    }
                    return Err(e);
                },
            }
            assert(rest@ =~= all.skip(pls@.len() as int));
        }
        proof {
            assert forall|a: int, b: int| 0 <= a < b < pls@.len() implies (#[trigger] pls@[a]).slug.view()
                != (#[trigger] pls@[b]).slug.view() by {
                assert(playlist_from(pls@[a], all[a].0.view(), all[a].1, all[a].2@));
                assert(playlist_from(pls@[b], all[b].0.view(), all[b].1, all[b].2@));
            }
            assert forall|i: int| !(0 <= i < all.len() && playlist_error(all[i].1, all[i].2@) is Some
                && forall|k: int| 0 <= k < i ==> playlist_error(#[trigger] all[k].1, all[k].2@) is None) by {
                if 0 <= i < all.len() {
                    assert(playlist_error(all[i].1, all[i].2@) is None);
                }
            }
        }
        Ok(State { playlists: pls })
    }

    /// The playlist with the given slug, if any.
    pub fn playlist(&self, slug: &PlaylistSlug) -> (res: Option<&Playlist>)
        ensures
            match res {
                Some(pl) => exists|i: int|
                    0 <= i < self.playlists@.len() && self.playlists@[i] == *pl
                        && pl.slug.view() == slug.view(),
                None => forall|i: int|
                    0 <= i < self.playlists@.len() ==> (#[trigger] self.playlists@[i]).slug.view()
                        != slug.view(),
            },
    {
        let mut k: usize = 0;
        while k < self.playlists.len()
            invariant
                k <= self.playlists@.len(),
                forall|i: int| 0 <= i < k ==> (#[trigger] self.playlists@[i]).slug.view() != slug.view(),
            decreases self.playlists@.len() - k,
        {
            if str_eq(self.playlists[k].slug.as_str(), slug.as_str()) {
                return Some(&self.playlists[k]);
            }
            k = k + 1;
        }
        None
    }
}

/// State of the `vod-meta` server with its version, for optimistic
/// concurrency: a change made against an outdated version is refused.
#[derive(Debug)]
pub struct Versioned {
    /// The state.
    pub state: State,
    /// Its version: it changes with every accepted change of the state.
    pub version: u8,
}

/// The version following `v`: one more, wrapping around to zero.
pub open spec fn next_version(v: u8) -> u8 {
    if v < 255 {
        (v + 1) as u8
    } else {
        0
    }
}

impl Versioned {
    /// A state at its first version.
    pub fn new(state: State) -> (res: Versioned)
        ensures
            res.state == state,
            res.version == 0,
    {
        Versioned { state, version: 0 }
    }

    /// Whether a change made against the given version (or against no
    /// version at all) is accepted: it is the current one.
    pub fn accepts(&self, ver: Option<u8>) -> (res: bool)
        ensures
            res == match ver {
                None => true,
                Some(v) => v == self.version,
            },
    {
        match ver {
            None => true,
            Some(v) => v == self.version,
        }
    }

    /// Replaces the state with a new one, if a change made against the given
    /// version is accepted; returns whether it was.
    pub fn set_state(&mut self, new: State, ver: Option<u8>) -> (res: bool)
        ensures
            res == match ver {
                None => true,
                Some(v) => v == old(self).version,
            },
            res ==> final(self).state == new && final(self).version == next_version(
                old(self).version,
            ),
            !res ==> *final(self) == *old(self),
    {
        if !self.accepts(ver) {
            return false;
        }
        self.state = new;
        self.version = match self.version.checked_add(1) {
            Some(v) => v,
            None => 0,
        };
        true
    }
}

/// An accepted change makes the version it was made against outdated: a
/// second change made against it is refused.
pub proof fn lemma_version_outdated(v: u8)
    ensures
        next_version(v) != v,
{
}

} // verus!

use ephyr::api::allatra::video::{Resolution, Source, Video};
use ephyr::timezone::TimeZone;
use ephyr::vod::meta::state::{
    Clip, ClipError, ClipRequest, Playlist, PlaylistError, PlaylistRequest, PlaylistSlug,
    SegmentDuration, State, Weekday, YoutubeUrlError,
};
use ephyr::weburl::WebUrl;

/// Info about a video as the allatra.video API gives it: one source file of
/// each resolution.
fn video(id: &str, duration: u64) -> Video {
    let sizes = [
        (Resolution::P240, "240"),
        (Resolution::P360, "360"),
        (Resolution::P480, "480"),
        (Resolution::P720, "720"),
        (Resolution::P1080, "1080"),
    ];
    Video {
        youtube_id: id.to_string(),
        duration,
        sources: sizes
            .iter()
            .map(|(size, lines)| Source {
                src: WebUrl::parse(&format!(
                    "https://api.allatra.video/storage/videos/{}/{}.mp4",
                    id, lines,
                ))
                .unwrap(),
                mime_type: "video/mp4".to_string(),
                size: *size,
            })
            .collect(),
    }
}

fn clip_req(url: &str, title: &str, from: u64, to: u64) -> ClipRequest {
    ClipRequest { url: WebUrl::parse(url).unwrap(), title: title.to_string(), from, to }
}

fn hms(h: u64, m: u64, s: u64) -> u64 {
    h * 3600 + m * 60 + s
}

const LIFE_CIRCLE: &str = "https://www.youtube.com/watch?v=0wAtNWA93hM";
const TRUTH_OF_LIFE: &str = "https://www.youtube.com/watch?v=Q69gFVmrCiI";
const CONSCIOUSNESS: &str = "https://www.youtube.com/watch?v=R29rL-CIsbo";

fn life_circle() -> Video {
    video("0wAtNWA93hM", hms(1, 50, 20))
}

fn truth_of_life() -> Video {
    video("Q69gFVmrCiI", hms(2, 0, 0))
}

fn consciousness() -> Video {
    video("R29rL-CIsbo", hms(7, 0, 0))
}

/// A playlist request with the given clips on the given weekday (Monday is
/// 0), along with the videos of those clips.
fn playlist_req(
    day: usize,
    clips: Vec<(ClipRequest, Video)>,
) -> (PlaylistRequest, Vec<Vec<Result<Video, String>>>) {
    let mut reqs: Vec<Vec<ClipRequest>> = (0..7).map(|_| Vec::new()).collect();
    let mut vids: Vec<Vec<Result<Video, String>>> = (0..7).map(|_| Vec::new()).collect();
    for (r, v) in clips {
        reqs[day].push(r);
        vids[day].push(Ok(v));
    }
    (
        PlaylistRequest {
            title: "Передачи с Игорем Михайловичем".to_string(),
            lang: "rus".to_string(),
            tz: TimeZone::east_opt(3 * 3600).unwrap(),
            segment_duration: Some(SegmentDuration::new(10).unwrap()),
            clips: reqs,
        },
        vids,
    )
}

#[test]
fn mod_parses_valid_request() {
    let req = clip_req(LIFE_CIRCLE, "Круг Жизни", 0, hms(1, 50, 20));
    let res = Clip::parse_request(&req, &Ok(life_circle()), SegmentDuration::default());
    assert!(res.is_ok(), "failed to parse: {:?}", res.unwrap_err());

    let clip = res.unwrap();
    assert_eq!(&clip.youtube_id, "0wAtNWA93hM");
    assert_eq!(&clip.title, "Круг Жизни");
    assert_eq!(clip.view.from, 0);
    assert_eq!(clip.view.to, 6620);
    assert_eq!(clip.sources.len(), 5);
}

#[test]
fn mod_disallows_non_youtube_url() {
    for url in &[
        "https://vimeo.com/watch?v=0wAtNWA93hM",
        "https://www.youtube.com/dfsdf?v=0wAtNWA93hM",
        "https://www.youtube.com/watch?vd=0wAtNWA93hM",
        "https://www.youtube.com/watch",
    ] {
        let req = clip_req(url, "Круг Жизни", 0, 10);
        let res = Clip::parse_request(&req, &Ok(life_circle()), SegmentDuration::default());
        assert!(
            matches!(res, Err(ClipError::IncorrectUrl(_))),
            "allows non-YouTube URL: {}",
            url,
        );
    }
}

#[test]
fn youtube_url_errors_tell_what_is_wrong() {
    let id = |url: &str| Clip::parse_youtube_id(&WebUrl::parse(url).unwrap());
    assert_eq!(id("ftp://youtube.com/watch?v=0wAtNWA93hM").unwrap_err(), YoutubeUrlError::NotHttp);
    assert_eq!(id("https://vimeo.com/watch?v=0wAtNWA93hM").unwrap_err(), YoutubeUrlError::NotYoutube);
    assert_eq!(id("https://youtube.com/dfsdf?v=0wAtNWA93hM").unwrap_err(), YoutubeUrlError::NotFullUrl);
    assert_eq!(id("https://www.youtube.com/watch?vd=0wAtNWA93hM").unwrap_err(), YoutubeUrlError::NoVideoId);
    assert_eq!(id(LIFE_CIRCLE).unwrap(), "0wAtNWA93hM");
    assert_eq!(id("http://youtube.com/watch/?t=5&v=Q69gFVmrCiI").unwrap(), "Q69gFVmrCiI");
}

#[test]
fn mod_disallows_invalid_duration() {
    let cases = [
        ((0, 0), ClipError::NotPositive),
        ((1, 0), ClipError::NotPositive),
        ((hms(2, 0, 0), hms(2, 0, 3)), ClipError::StartsAfterVideoEnd),
        ((0, hms(2, 0, 3)), ClipError::FinishesAfterVideoEnd),
        ((0, hms(1, 50, 23)), ClipError::FinishesAfterVideoEnd),
    ];
    for ((from, to), expected) in cases.iter() {
        let req = clip_req(LIFE_CIRCLE, "Круг Жизни", *from, *to);
        let res = Clip::parse_request(&req, &Ok(life_circle()), SegmentDuration::default());
        assert!(res.is_err(), "allows invalid duration {}..{}", from, to);
        assert_eq!(
            std::mem::discriminant(&res.unwrap_err()),
            std::mem::discriminant(expected),
            "wrong error for {}..{}",
            from,
            to,
        );
    }
}

#[test]
fn clip_errors_come_in_order() {
    let empty = clip_req("https://vimeo.com/x", "", 0, 0);
    let res = Clip::parse_request(&empty, &Ok(life_circle()), SegmentDuration::default());
    assert!(matches!(res, Err(ClipError::EmptyTitle)));

    let req = clip_req(LIFE_CIRCLE, "Круг Жизни", 0, 10);
    let res = Clip::parse_request(&req, &Err("no such video".to_string()), SegmentDuration::default());
    assert!(matches!(res, Err(ClipError::Fetch(ref e)) if e == "no such video"));

    let req = clip_req(LIFE_CIRCLE, "Круг Жизни", 0, 15);
    let res = Clip::parse_request(&req, &Ok(life_circle()), SegmentDuration::default());
    assert!(matches!(res, Err(ClipError::NotDivisible)));
    let res = Clip::parse_request(&req, &Ok(life_circle()), SegmentDuration::new(5).unwrap());
    assert!(res.is_ok());
}

#[test]
fn mod_parses_valid_playlist_request() {
    let slug = PlaylistSlug::new("life").unwrap();
    let (req, vids) = playlist_req(
        0,
        vec![
            (clip_req(LIFE_CIRCLE, "Круг Жизни", 0, hms(0, 30, 0)), life_circle()),
            (clip_req(TRUTH_OF_LIFE, "ПРАВДА ЖИЗНИ", 0, hms(1, 0, 0)), truth_of_life()),
        ],
    );
    let res = Playlist::parse_request(slug, &req, &vids);
    assert!(res.is_ok(), "failed to parse: {:?}", res.unwrap_err());

    let pl = res.unwrap();
    assert_eq!(pl.slug.as_str(), "life");
    assert_eq!(&pl.title, "Передачи с Игорем Михайловичем");
    assert_eq!(&pl.lang, "rus");
    assert_eq!(pl.tz, TimeZone::east_opt(3 * 3600).unwrap());
    assert_eq!(pl.segment_duration.as_duration(), 10);
    assert!(pl.initial.is_none());
    assert_eq!(pl.clips.len(), 7);
    assert_eq!(pl.clips[0].len(), 2, "incorrect weekday");
    assert!(pl.clips[1..].iter().all(|day| day.is_empty()));
    assert_eq!(&pl.clips[0][1].youtube_id, "Q69gFVmrCiI");
}

#[test]
fn mod_disallows_invalid_clip() {
    let slug = PlaylistSlug::new("life").unwrap();

    let (req, vids) =
        playlist_req(0, vec![(clip_req(LIFE_CIRCLE, "Круг Жизни", 0, 0), life_circle())]);
    let res = Playlist::parse_request(slug.clone(), &req, &vids);
    assert!(matches!(res, Err(PlaylistError::Clip(ClipError::NotPositive))));

    let (req, vids) = playlist_req(
        1,
        vec![(clip_req("https://vimeo.com/watch?v=0wAtNWA93hM", "Круг Жизни", 0, hms(1, 0, 0)), life_circle())],
    );
    let res = Playlist::parse_request(slug, &req, &vids);
    assert!(matches!(res, Err(PlaylistError::Clip(ClipError::IncorrectUrl(_)))));
}

#[test]
fn mod_disallows_non_24_hours_fractioned_weekday_clips_duration() {
    let slug = PlaylistSlug::new("life").unwrap();

    let (req, vids) =
        playlist_req(5, vec![(clip_req(LIFE_CIRCLE, "Круг Жизни", 0, hms(0, 32, 57)), life_circle())]);
    let res = Playlist::parse_request(slug.clone(), &req, &vids);
    assert!(res.is_err(), "allows non-24-hours fractioned total duration");

    let (req, vids) = playlist_req(
        6,
        vec![
            (clip_req(LIFE_CIRCLE, "Круг Жизни", 0, hms(1, 50, 20)), life_circle()),
            (clip_req(TRUTH_OF_LIFE, "ПРАВДА ЖИЗНИ", 0, hms(1, 0, 0)), truth_of_life()),
        ],
    );
    let res = Playlist::parse_request(slug, &req, &vids);
    assert!(matches!(res, Err(PlaylistError::DayNotFraction(Weekday::Sun))));
}

#[test]
fn mod_disallows_more_than_24_hours_weekday_clips_duration() {
    let slug = PlaylistSlug::new("life").unwrap();

    let consciousness_clip =
        || (clip_req(CONSCIOUSNESS, "Сознание и Личность", 0, hms(7, 0, 0)), consciousness());
    let (req, vids) = playlist_req(5, (0..4).map(|_| consciousness_clip()).collect());
    let res = Playlist::parse_request(slug.clone(), &req, &vids);
    assert!(matches!(res, Err(PlaylistError::DayTooLong(Weekday::Sat))));

    let truth_clip = || (clip_req(TRUTH_OF_LIFE, "ПРАВДА ЖИЗНИ", 0, hms(2, 0, 0)), truth_of_life());
    let (req, vids) = playlist_req(0, (0..13).map(|_| truth_clip()).collect());
    let res = Playlist::parse_request(slug, &req, &vids);
    assert!(matches!(res, Err(PlaylistError::DayTooLong(Weekday::Mon))));
}

#[test]
fn state_parses_playlists_or_fails_with_the_first_error() {
    let ok = || {
        playlist_req(
            2,
            vec![(clip_req(TRUTH_OF_LIFE, "ПРАВДА ЖИЗНИ", 0, hms(2, 0, 0)), truth_of_life())],
        )
    };
    let (r1, v1) = ok();
    let (r2, v2) = ok();
    let st = State::parse_request(vec![
        (PlaylistSlug::new("life").unwrap(), r1, v1),
        (PlaylistSlug::new("truth").unwrap(), r2, v2),
    ])
    .unwrap();
    assert_eq!(st.playlists.len(), 2);
    assert!(st.playlist(&PlaylistSlug::new("truth").unwrap()).is_some());
    assert!(st.playlist(&PlaylistSlug::new("other").unwrap()).is_none());

    let (r1, v1) = ok();
    let (mut r2, v2) = ok();
    r2.title = String::new();
    let res = State::parse_request(vec![
        (PlaylistSlug::new("life").unwrap(), r1, v1),
        (PlaylistSlug::new("truth").unwrap(), r2, v2),
    ]);
    assert!(matches!(res, Err(PlaylistError::EmptyTitle)));
}

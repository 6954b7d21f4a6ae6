use ephyr::api::allatra::video::Resolution;
use ephyr::api::nginx::vod_module::mapping::{
    ClipType, MillisDateTime, MillisDuration, PlaylistType, SourceClip,
};
use ephyr::timezone::TimeZone;
use ephyr::vod::meta::schedule_nginx_vod_module_set;
use ephyr::vod::meta::state::schedule::schedule_week_at;
use ephyr::vod::meta::state::{
    Clip, ClipView, Playlist, PlaylistSlug, SegmentDuration, Src, SrcUrl,
};
use ephyr::weburl::WebUrl;

fn clip(name: &str, secs: u64) -> Clip {
    Clip {
        youtube_id: name.to_string(),
        title: name.to_string(),
        view: ClipView { from: 0, to: secs },
        sources: vec![Src {
            url: SrcUrl {
                upstream: WebUrl::parse(&format!("https://api.allatra.video/storage/videos/{}.mp4", name)).unwrap(),
                local: None,
            },
            mime_type: "video/mp4".to_string(),
            size: Resolution::P720,
        }],
    }
}

fn playlist(clips_per_day: Vec<Vec<Clip>>) -> Playlist {
    Playlist {
        slug: PlaylistSlug::new("pl").unwrap(),
        title: "Playlist".to_string(),
        lang: "eng".to_string(),
        tz: TimeZone::east_opt(0).unwrap(),
        segment_duration: SegmentDuration::new(10).unwrap(),
        initial: None,
        clips: clips_per_day,
    }
}

#[test]
fn weekly_schedule_fills_each_day_from_now_on() {
    // Only Mondays have clips: two of six hours each, looped.
    let mut week = vec![vec![]; 7];
    week[0] = vec![clip("a", 6 * 3600), clip("b", 6 * 3600)];
    let pl = playlist(week);
    // Monday 1970-01-05 07:00 UTC: the first clip of the day is over.
    let monday = 4 * 86400;
    let now = monday + 7 * 3600;
    let set = schedule_week_at(&pl, now);
    assert_eq!(set.id.as_deref(), Some("pl"));
    assert!(matches!(set.playlist_type, PlaylistType::Live));
    assert!(set.discontinuity);
    assert_eq!(set.segment_duration, Some(MillisDuration(10_000)));
    assert!(set.initial_clip_index.is_none());
    assert_eq!(set.durations.len(), 3);
    assert_eq!(
        set.clip_times,
        vec![
            MillisDateTime(((monday + 6 * 3600) * 1000) as i128),
            MillisDateTime(((monday + 12 * 3600) * 1000) as i128),
            MillisDateTime(((monday + 18 * 3600) * 1000) as i128),
        ]
    );
    assert_eq!(set.sequences.len(), 1);
    let sq = &set.sequences[0];
    assert_eq!(sq.id.as_deref(), Some("720p"));
    assert_eq!(sq.language.as_deref(), Some("eng"));
    let ClipType::Source(first) = &sq.clips[0].clip_type;
    assert_eq!(first.path, "/api.allatra.video/b.mp4");
    assert_eq!(first.to, Some(MillisDuration(6 * 3600 * 1000)));

    let live = schedule_nginx_vod_module_set(&pl);
    assert!(live.durations.len() <= 128);
}

#[test]
fn schedules_without_mutual_resolutions_are_empty() {
    let pl = playlist(vec![vec![]; 7]);
    let set = schedule_week_at(&pl, 0);
    assert!(set.durations.is_empty());
    assert!(set.sequences.is_empty());
}

#[test]
fn playlist_schedule_starts_today_and_holds_128_clips() {
    let mut week = vec![vec![]; 7];
    for d in 0..7 {
        week[d] = vec![clip("c", 3600)];
    }
    let mut pl = playlist(week);
    let now = 10 * 86400 + 1800;
    let set = pl.schedule_at(now);
    assert_eq!(set.durations.len(), 128);
    // The clip that started at midnight finishes in the future: it comes first.
    assert_eq!(set.clip_times[0], MillisDateTime((10 * 86400 * 1000) as i128));
    assert_eq!(set.initial_clip_index, Some(0));
    let first = pl.initial.as_ref().unwrap();
    assert_eq!(first.at, 10 * 86400);
}

#[test]
fn rescheduling_later_only_advances_the_numbering() {
    let mut week = vec![vec![]; 7];
    for d in 0..7 {
        week[d] = vec![clip("a", 1800), clip("b", 3600), clip("c", 1800)];
    }
    let mut pl = playlist(week);
    let now1 = 10 * 86400 + 1800;
    let s1 = pl.schedule_at(now1);
    let s2 = pl.schedule_at(now1 + 5 * 3600 + 17);
    let s3 = pl.schedule_at(now1 + 3 * 86400);
    for (a, b) in [(&s1, &s2), (&s2, &s3)] {
        assert!(a.initial_clip_index.unwrap() <= b.initial_clip_index.unwrap());
        assert!(a.initial_segment_index.unwrap() <= b.initial_segment_index.unwrap());
        assert!(a.clip_times[0].0 <= b.clip_times[0].0);
    }
    // The second schedule starts with the clip that finished less than a
    // minute ago: after two loops of two hours (three clips, 720 segments
    // of ten seconds each) and one clip of half an hour.
    assert_eq!(s1.initial_clip_index, Some(0));
    assert_eq!(s2.initial_clip_index, Some(7));
    assert_eq!(s2.initial_segment_index, Some(2 * 720 + 180));
}

#[test]
fn scheduled_clips_follow_one_another_without_overlap() {
    let mut week = vec![vec![]; 7];
    for d in 0..7 {
        week[d] = vec![clip("a", 1800), clip("b", 3600), clip("c", 5400)];
    }
    let mut pl = playlist(week);
    let set = pl.schedule_at(3 * 86400 + 100);
    assert_eq!(set.clip_times.len(), 128);
    for i in 0..set.clip_times.len() - 1 {
        assert_eq!(
            set.clip_times[i].0 + set.durations[i].0 as i128,
            set.clip_times[i + 1].0,
        );
    }
}

#[test]
fn source_paths_are_stripped_and_joined_as_paths() {
    let path = |u: &str| SourceClip::get_url_path(&WebUrl::parse(u).unwrap());
    assert_eq!(path("https://api.allatra.video/storage/videos/a.mp4"), "/api.allatra.video/a.mp4");
    assert_eq!(path("http://api.allatra.video/storage/videos/x/a.mp4"), "/api.allatra.video/x/a.mp4");
    assert_eq!(path("https://api.allatra.video/storage/videos//a.mp4"), "/api.allatra.video/a.mp4");
    assert_eq!(path("https://api.allatra.video/storage/videos/a.mp4/"), "/api.allatra.video/a.mp4");
    assert_eq!(path("file:///cache/a.mp4"), "/local/cache/a.mp4");
}

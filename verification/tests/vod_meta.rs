use ephyr::vod::meta::state::{PlaylistSlug, SegmentDuration};

#[test]
fn state_allows_valid_slugs() {
    for (input, desc) in &[
        ("sdf0sdf0", "single segment"),
        ("0-0-0-df", "multiple segments"),
    ] {
        let actual = PlaylistSlug::new(*input);
        assert!(actual.is_some(), "disallows {}", desc);
    }
}

#[test]
fn state_disallows_invalid_slugs() {
    for (input, desc) in &[
        ("", "empty value"),
        ("-djksf0", "starting with hyphen"),
        ("djksf0-", "ending with hyphen"),
        ("djk-s___f0", "incorrect symbols"),
    ] {
        let actual = PlaylistSlug::new(*input);
        assert!(actual.is_none(), "disallows {}", desc);
    }
}

#[test]
fn mod_allows_valid_slugs() {
    for (input, desc) in &[
        ("sdf0sdf0", "single segment"),
        ("0-0-0-df", "multiple segments"),
    ] {
        let actual = PlaylistSlug::new(*input);
        assert!(actual.is_some(), "disallows {}", desc);
    }
}

#[test]
fn mod_disallows_invalid_slugs() {
    for (input, desc) in &[
        ("", "empty value"),
        ("-djksf0", "starting with hyphen"),
        ("djksf0-", "ending with hyphen"),
        ("djk-s___f0", "incorrect symbols"),
    ] {
        let actual = PlaylistSlug::new(*input);
        assert!(actual.is_none(), "allows {}", desc);
    }
}

#[test]
fn disallows_invalid_slugs() {
    for input in &[1, 31, 60] {
        let actual = SegmentDuration::new(*input);
        assert!(actual.is_none(), "allows {} seconds", input);
    }
}

#[test]
fn allows_valid_durations() {
    for input in &[5, 10, 30] {
        let actual = SegmentDuration::new(*input);
        assert!(actual.is_some(), "disallows {} seconds", input);
    }
}

#[test]
fn segment_duration_keeps_its_seconds() {
    let d = SegmentDuration::new(10).unwrap();
    assert_eq!(d.as_duration(), 10);
    assert_eq!(SegmentDuration::default().as_duration(), 10);
    assert!(SegmentDuration::validate(5));
    assert!(SegmentDuration::validate(30));
    assert!(!SegmentDuration::validate(4));
}

#[test]
fn slug_keeps_its_text() {
    let slug = PlaylistSlug::new("life").unwrap();
    assert_eq!(slug.as_str(), "life");
    assert!(PlaylistSlug::validate("a-b-c"));
    assert!(!PlaylistSlug::validate("a--b"));
    assert!(!PlaylistSlug::validate("Abc"));
}

#[test]
fn sources_take_cached_files() {
    use_sources();
}

fn use_sources() {
    let mut src = ephyr::vod::meta::state::Src {
        url: ephyr::vod::meta::state::SrcUrl {
            upstream: ephyr::weburl::WebUrl::parse("https://api.allatra.video/storage/videos/a.mp4").unwrap(),
            local: None,
        },
        mime_type: "video/mp4".to_string(),
        size: ephyr::api::allatra::video::Resolution::P720,
    };
    assert!(src.is_uncached());
    assert!(src.take_cached(None).is_ok());
    assert!(src.is_uncached());
    assert!(src.take_cached(Some("a.mp4")).is_ok());
    assert!(!src.is_uncached());
    assert_eq!(src.url.local.as_ref().unwrap().as_str(), "file:///a.mp4");
}

#[test]
fn segment_durations_with_parts_of_a_second_are_refused() {
    assert!(SegmentDuration::from_millis(30_500).is_none());
    assert!(SegmentDuration::from_millis(5_001).is_none());
    assert!(SegmentDuration::from_millis(31_000).is_none());
    assert!(SegmentDuration::from_millis(4_000).is_none());
    assert_eq!(SegmentDuration::from_millis(30_000).unwrap().as_duration(), 30);
    assert_eq!(SegmentDuration::from_millis(5_000).unwrap().as_duration(), 5);
}

use ephyr::restreamer::spec::{v1, Spec};
use ephyr::restreamer::state::{
    Delay, InputEndpointKind, InputKey, InputSrc, InputSrcUrl, Label, MixinSrcUrl,
    OutputDstUrl, RestreamKey, State, StateError, Status, Volume,
};
use ephyr::restreamer::state::{EndpointId, InputId, MixinId, OutputId, RestreamId};
use ephyr::weburl::WebUrl;

fn url(s: &str) -> WebUrl {
    WebUrl::parse(s).expect("valid URL")
}

fn dst(s: &str) -> OutputDstUrl {
    OutputDstUrl::new(url(s)).ok().expect("valid output URL")
}

fn mixin_src(s: &str) -> MixinSrcUrl {
    MixinSrcUrl::new(url(s)).ok().expect("valid mixin URL")
}

fn input_spec(key: &str, kinds: &[InputEndpointKind], src: Option<v1::InputSrc>) -> v1::Input {
    v1::Input {
        key: InputKey::new(key).unwrap(),
        endpoints: kinds.iter().map(|k| v1::InputEndpoint { kind: *k }).collect(),
        src,
        enabled: true,
    }
}

fn restream_spec(key: &str) -> v1::Restream {
    v1::Restream {
        key: RestreamKey::new(key).unwrap(),
        label: None,
        input: input_spec("origin", &[InputEndpointKind::Rtmp], None),
        outputs: vec![],
    }
}

fn output_spec(d: &str, mixins: &[&str]) -> v1::Output {
    v1::Output {
        dst: dst(d),
        label: None,
        volume: Volume::origin(),
        mixins: mixins
            .iter()
            .map(|m| v1::Mixin { src: mixin_src(m), volume: Volume::origin(), delay: Delay::default() })
            .collect(),
        enabled: false,
    }
}

#[test]
fn displays_as_fraction() {
    for (input, expected) in &[
        (1, "0.01"),
        (10, "0.10"),
        (200, "2.00"),
        (107, "1.07"),
        (170, "1.70"),
        (1000, "10.00"),
    ] {
        let actual = Volume::new(*input).unwrap().display_as_fraction();
        assert_eq!(&actual, *expected);
    }
}

#[test]
fn volume_and_delay_bounds() {
    assert!(Volume::new(-1).is_none());
    assert!(Volume::new(1001).is_none());
    assert_eq!(Volume::new(0).unwrap().value(), 0);
    assert_eq!(Volume::max().value(), 1000);
    assert!(Volume::origin().is_origin());
    assert!(!Volume::off().is_origin());
    assert!(Delay::from_millis(-1).is_none());
    assert_eq!(Delay::from_millis(3500).unwrap().as_millis(), 3500);
    assert!(Delay::default().is_zero());
}

#[test]
fn keys_and_labels_follow_their_patterns() {
    assert!(RestreamKey::new("en_stream-1").is_some());
    assert!(RestreamKey::new("").is_none());
    assert!(RestreamKey::new("UPPER").is_none());
    assert!(RestreamKey::new("abcdefghijklmnopqrstu").is_none());
    assert!(InputKey::new("main").is_some());
    assert!(InputKey::new("ma in").is_none());
    assert!(Label::new("Some label").is_some());
    assert!(Label::new("a,b").is_none());
    assert!(Label::new("").is_none());
    assert_eq!(RestreamKey::new("abc").unwrap().as_str(), "abc");
}

#[test]
fn urls_are_validated() {
    assert!(InputSrcUrl::new(url("rtmp://example.com/live/stream")).is_some());
    assert!(InputSrcUrl::new(url("http://example.com/live/stream")).is_none());
    assert!(OutputDstUrl::new(url("rtmp://example.com/live/stream")).is_ok());
    assert!(OutputDstUrl::new(url("srt://example.com:9000")).is_ok());
    assert!(OutputDstUrl::new(url("icecast://example.com/mount")).is_ok());
    assert!(OutputDstUrl::new(url("file:///record.flv")).is_ok());
    assert!(OutputDstUrl::new(url("file:///dir/record.flv")).is_err());
    assert!(OutputDstUrl::new(url("file:///record.mp4")).is_err());
    assert!(OutputDstUrl::new(url("http://example.com/live")).is_err());
    assert!(MixinSrcUrl::new(url("ts://example.com/channel")).is_ok());
    assert!(MixinSrcUrl::new(url("https://example.com/music.mp3")).is_ok());
    assert!(MixinSrcUrl::new(url("https://example.com/music.mp4")).is_err());
    assert!(MixinSrcUrl::new(url("ftp://example.com/music.mp3")).is_err());
}

#[test]
fn adds_edits_and_removes_restreams() {
    let mut state = State::new();
    assert!(state.add_restream(restream_spec("one")).is_ok());
    assert!(state.add_restream(restream_spec("two")).is_ok());
    match state.add_restream(restream_spec("one")) {
        Err(StateError::RestreamKeyUsed(k)) => assert_eq!(k.as_str(), "one"),
        other => panic!("unexpected: {:?}", other),
    }
    assert_eq!(state.restreams.len(), 2);

    let id = state.restreams[0].id;
    let other = state.restreams[1].id;
    assert!(matches!(state.edit_restream(id, restream_spec("two")), Err(StateError::RestreamKeyUsed(_))));
    assert!(matches!(state.edit_restream(id, restream_spec("three")), Ok(Some(()))));
    assert_eq!(state.restreams[0].key.as_str(), "three");
    assert_eq!(state.restreams[0].id, id);

    assert_eq!(state.remove_restream(id), Some(()));
    assert_eq!(state.remove_restream(id), None);
    assert_eq!(state.restreams.len(), 1);
    assert_eq!(state.restreams[0].id, other);
}

#[test]
fn enables_and_disables_restreams_once() {
    let mut state = State::new();
    state.add_restream(restream_spec("one")).unwrap();
    let id = state.restreams[0].id;
    assert_eq!(state.enable_restream(id), Some(false));
    assert_eq!(state.disable_restream(id), Some(true));
    assert_eq!(state.disable_restream(id), Some(false));
    assert!(!state.restreams[0].input.enabled);
    assert_eq!(state.enable_restream(id), Some(true));
    assert_eq!(state.enable_restream(id), Some(false));
    let missing = RestreamId::random();
    assert_eq!(state.enable_restream(missing), None);
}

#[test]
fn switches_failover_inputs() {
    let mut state = State::new();
    let mut spec = restream_spec("one");
    spec.input.src = Some(v1::InputSrc::FailoverInputs(vec![
        input_spec("main", &[InputEndpointKind::Rtmp], None),
        input_spec("backup", &[InputEndpointKind::Rtmp], None),
    ]));
    state.add_restream(spec).unwrap();
    let rid = state.restreams[0].id;
    let backup = match &state.restreams[0].input.src {
        Some(InputSrc::Failover(f)) => f.inputs[1].id,
        _ => panic!("no failover source"),
    };
    assert_eq!(state.disable_input(backup, rid), Some(true));
    assert_eq!(state.disable_input(backup, rid), Some(false));
    match &state.restreams[0].input.src {
        Some(InputSrc::Failover(f)) => {
            assert!(f.inputs[0].enabled);
            assert!(!f.inputs[1].enabled);
        }
        _ => panic!("no failover source"),
    }
    assert!(state.restreams[0].input.enabled);
    // Enabling the whole re-stream enables the backup input again.
    assert_eq!(state.enable_restream(rid), Some(true));
    let missing = InputId::random();
    assert_eq!(state.enable_input(missing, rid), None);
}

#[test]
fn manages_outputs() {
    let mut state = State::new();
    state.add_restream(restream_spec("one")).unwrap();
    let rid = state.restreams[0].id;
    assert_eq!(state.add_output(rid, output_spec("rtmp://a.com/live/x", &[])).ok(), Some(Some(())));
    assert!(matches!(
        state.add_output(rid, output_spec("rtmp://a.com/live/x", &[])),
        Err(StateError::OutputDstUsed(_))
    ));
    assert_eq!(state.add_output(rid, output_spec("rtmp://b.com/live/y", &["ts://t.com/ch"])).ok(), Some(Some(())));
    let first = state.restreams[0].outputs[0].id;
    let second = state.restreams[0].outputs[1].id;

    assert!(matches!(
        state.edit_output(rid, first, output_spec("rtmp://b.com/live/y", &[])),
        Err(StateError::OutputDstUsed(_))
    ));
    assert!(matches!(state.edit_output(rid, first, output_spec("rtmp://c.com/live/z", &[])), Ok(Some(()))));
    assert_eq!(state.restreams[0].outputs[0].dst.url().as_str(), "rtmp://c.com/live/z");

    assert_eq!(state.enable_output(first, rid), Some(true));
    assert_eq!(state.enable_output(first, rid), Some(false));
    assert_eq!(state.enable_all_outputs(rid), Some(true));
    assert_eq!(state.enable_all_outputs(rid), Some(false));
    assert_eq!(state.disable_all_outputs(rid), Some(true));
    assert_eq!(state.disable_output(second, rid), Some(false));

    let mixin = state.restreams[0].outputs[1].mixins[0].id;
    assert_eq!(state.tune_volume(rid, second, None, Volume::new(50).unwrap()), Some(true));
    assert_eq!(state.tune_volume(rid, second, None, Volume::new(50).unwrap()), Some(false));
    assert_eq!(state.tune_volume(rid, second, Some(mixin), Volume::off()), Some(true));
    assert_eq!(state.restreams[0].outputs[1].mixins[0].volume.value(), 0);
    assert_eq!(state.tune_delay(rid, second, mixin, Delay::from_millis(200).unwrap()), Some(true));
    assert_eq!(state.tune_delay(rid, second, mixin, Delay::from_millis(200).unwrap()), Some(false));
    assert_eq!(state.tune_delay(rid, first, mixin, Delay::default()), None);

    assert_eq!(state.remove_output(first, rid), Some(()));
    assert_eq!(state.remove_output(first, rid), None);
    assert_eq!(state.restreams[0].outputs.len(), 1);
}

#[test]
fn imports_and_exports_back() {
    let mut spec = restream_spec("one");
    spec.label = Label::new("First");
    spec.outputs = vec![output_spec("rtmp://a.com/live/x", &["https://m.com/a.mp3"])];
    let mut state = State::new();
    state.apply(v1::Spec { restreams: vec![spec, restream_spec("two")] }, true);
    let Spec::V1(out) = state.export();
    assert_eq!(out.restreams.len(), 2);
    assert_eq!(out.restreams[0].key.as_str(), "one");
    assert_eq!(out.restreams[0].label.as_ref().unwrap().as_str(), "First");
    assert_eq!(out.restreams[0].input.key.as_str(), "origin");
    assert_eq!(out.restreams[0].outputs.len(), 1);
    assert_eq!(out.restreams[0].outputs[0].mixins[0].src.url().as_str(), "https://m.com/a.mp3");
    assert_eq!(out.restreams[1].key.as_str(), "two");
}

#[test]
fn merges_and_replaces() {
    let mut state = State::new();
    state.add_restream(restream_spec("one")).unwrap();
    let id = state.restreams[0].id;
    let mut spec = restream_spec("one");
    spec.outputs = vec![output_spec("rtmp://a.com/live/x", &[])];
    state.apply(v1::Spec { restreams: vec![spec, restream_spec("two")] }, false);
    assert_eq!(state.restreams.len(), 2);
    assert_eq!(state.restreams[0].id, id);
    assert_eq!(state.restreams[0].outputs.len(), 1);

    state.apply(v1::Spec { restreams: vec![restream_spec("two")] }, true);
    assert_eq!(state.restreams.len(), 1);
    assert_eq!(state.restreams[0].key.as_str(), "two");
}

#[test]
fn ready_to_serve_follows_online_endpoints() {
    let mut state = State::new();
    state.add_restream(restream_spec("one")).unwrap();
    assert!(!state.restreams[0].input.is_ready_to_serve());
    state.restreams[0].input.endpoints[0].status = Status::Online;
    assert!(state.restreams[0].input.is_ready_to_serve());
}

#[test]
fn rtmp_urls_of_endpoints() {
    let restream = RestreamKey::new("live").unwrap();
    let input = InputKey::new("origin").unwrap();
    assert_eq!(
        InputEndpointKind::Rtmp.rtmp_url_text(&restream, &input),
        "rtmp://127.0.0.1:1935/live/origin"
    );
    assert_eq!(
        InputEndpointKind::Hls.rtmp_url_text(&restream, &input),
        "rtmp://127.0.0.1:1935/live?vhost=hls/origin"
    );
    let u = InputEndpointKind::Rtmp.rtmp_url(&restream, &input).unwrap();
    assert_eq!(u.scheme(), "rtmp");
    let mut state = State::new();
    state.add_restream(restream_spec("live")).unwrap();
    let main = state.restreams[0].main_input_rtmp_endpoint_url().unwrap();
    assert_eq!(main.as_str(), "rtmp://127.0.0.1:1935/live/origin");
}

#[test]
fn random_ids_are_version_4_uuids() {
    let ids = [
        RestreamId::random().0,
        EndpointId::random().0,
        InputId::random().0,
        OutputId::random().0,
        MixinId::random().0,
    ];
    for id in ids.iter() {
        assert_eq!((id >> 76) & 0xf, 4, "version of {:032x}", id);
        assert_eq!((id >> 62) & 0x3, 2, "variant of {:032x}", id);
    }
    assert_ne!(RestreamId::random(), RestreamId::random());
}

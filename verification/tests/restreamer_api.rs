use ephyr::restreamer::api::{ApiError, MutationsRoot, QueriesRoot};
use ephyr::restreamer::callback::{on_callback, on_connect, CallbackError, Event, Request};
use ephyr::restreamer::spec::{v1, Spec};
use ephyr::restreamer::state::{
    InputEndpointKind, InputSrc, InputSrcUrl, Label, MixinSrcUrl, OutputDstUrl, RestreamKey,
    State, Status,
};
use ephyr::restreamer::{ffmpeg, is_false};
use ephyr::weburl::WebUrl;

fn url(s: &str) -> WebUrl {
    WebUrl::parse(s).expect("valid URL")
}

fn mixin(s: &str) -> MixinSrcUrl {
    MixinSrcUrl::new(url(s)).ok().unwrap()
}

fn req(action: Event, app: &str, stream: Option<&str>, vhost: &str, local: bool) -> Request {
    Request {
        action,
        client_id: 7,
        ip_is_loopback: local,
        app: app.to_string(),
        stream: stream.map(str::to_string),
        vhost: vhost.to_string(),
    }
}

fn state_with_restream(with_backup: bool, with_hls: bool) -> State {
    let mut state = State::new();
    let r = MutationsRoot::set_restream(
        RestreamKey::new("live").unwrap(),
        Label::new("Live"),
        None,
        None,
        with_backup,
        with_hls,
        None,
        &mut state,
    );
    assert_eq!(r.ok(), Some(Some(true)));
    state
}

#[test]
fn sets_restreams_with_backup_and_hls() {
    let state = state_with_restream(true, true);
    let r = &state.restreams[0];
    assert_eq!(r.input.key.as_str(), "origin");
    assert_eq!(r.input.endpoints.len(), 2);
    assert_eq!(r.input.endpoints[1].kind, InputEndpointKind::Hls);
    match &r.input.src {
        Some(InputSrc::Failover(f)) => {
            assert_eq!(f.inputs.len(), 2);
            assert_eq!(f.inputs[0].key.as_str(), "main");
            assert_eq!(f.inputs[1].key.as_str(), "backup");
        }
        _ => panic!("no failover source"),
    }
}

#[test]
fn set_restream_pulls_from_the_source() {
    let mut state = State::new();
    let src = InputSrcUrl::new(url("rtmp://example.com/live/src")).unwrap();
    let r = MutationsRoot::set_restream(
        RestreamKey::new("pull").unwrap(), None, Some(src), None, false, false, None, &mut state,
    );
    assert_eq!(r.ok(), Some(Some(true)));
    match &state.restreams[0].input.src {
        Some(InputSrc::Remote(r)) => assert_eq!(r.url.url().as_str(), "rtmp://example.com/live/src"),
        _ => panic!("no remote source"),
    }
    let dup = MutationsRoot::set_restream(
        RestreamKey::new("pull").unwrap(), None, None, None, false, false, None, &mut state,
    );
    assert!(matches!(dup, Err(ApiError::DuplicateRestreamKey(_))));
    let missing = ephyr::restreamer::state::RestreamId::random();
    let none = MutationsRoot::set_restream(
        RestreamKey::new("other").unwrap(), None, None, None, false, false, Some(missing), &mut state,
    );
    assert_eq!(none.ok(), Some(None));
}

#[test]
fn set_output_validates_mixins() {
    let mut state = state_with_restream(false, false);
    let rid = state.restreams[0].id;
    let dst = || OutputDstUrl::new(url("rtmp://a.com/live/x")).ok().unwrap();
    let six = (0..6).map(|i| mixin(&format!("https://m.com/{}.mp3", i))).collect();
    assert!(matches!(
        MutationsRoot::set_output(rid, dst(), None, six, None, &mut state),
        Err(ApiError::TooMuchMixinUrls)
    ));
    match MutationsRoot::set_output(
        rid,
        dst(),
        None,
        vec![mixin("https://m.com/a.mp3"), mixin("https://m.com/b.mp3"), mixin("https://m.com/a.mp3")],
        None,
        &mut state,
    ) {
        Err(ApiError::DuplicateMixinUrl(u)) => assert_eq!(u.url().as_str(), "https://m.com/a.mp3"),
        other => panic!("unexpected: {:?}", other),
    }
    assert!(matches!(
        MutationsRoot::set_output(rid, dst(), None, vec![mixin("ts://t.com/a"), mixin("ts://t.com/b")], None, &mut state),
        Err(ApiError::TooMuchTeamspeakMixinUrls)
    ));
    assert!(state.restreams[0].outputs.is_empty());
    let ok = MutationsRoot::set_output(
        rid, dst(), None, vec![mixin("ts://t.com/a"), mixin("https://m.com/b.mp3")], None, &mut state,
    );
    assert_eq!(ok.ok(), Some(Some(true)));
    let o = &state.restreams[0].outputs[0];
    assert!(!o.enabled);
    assert_eq!(o.mixins[0].delay.as_millis(), 3500);
    assert!(o.mixins[1].delay.is_zero());
    assert!(o.volume.is_origin());
    assert!(matches!(
        MutationsRoot::set_output(rid, dst(), None, vec![], None, &mut state),
        Err(ApiError::DuplicateOutputUrl(_))
    ));
}

#[test]
fn import_to_one_restream_needs_one_spec() {
    let mut state = state_with_restream(false, false);
    let id = state.restreams[0].id;
    let Spec::V1(exported) = QueriesRoot::export(&vec![], &state).unwrap();
    let twice = v1::Spec { restreams: vec![exported.restreams[0].export_again(), exported.restreams[0].export_again()] };
    assert!(matches!(
        MutationsRoot::import(Spec::V1(twice), false, Some(id), &mut state),
        Err(ApiError::InvalidSpec)
    ));
    let once = v1::Spec { restreams: vec![exported.restreams[0].export_again()] };
    assert_eq!(MutationsRoot::import(Spec::V1(once), true, Some(id), &mut state).ok(), Some(Some(true)));
    assert!(QueriesRoot::export(&vec![ephyr::restreamer::state::RestreamId::random()], &state).is_none());
}

trait ExportAgain {
    fn export_again(&self) -> v1::Restream;
}

impl ExportAgain for v1::Restream {
    fn export_again(&self) -> v1::Restream {
        v1::Restream {
            key: self.key.clone(),
            label: None,
            input: v1::Input {
                key: self.input.key.clone(),
                endpoints: self.input.endpoints.clone(),
                src: None,
                enabled: self.input.enabled,
            },
            outputs: vec![],
        }
    }
}

#[test]
fn checks_dvr_file_paths() {
    assert!(MutationsRoot::check_dvr_file_path("output/file.flv").is_ok());
    assert!(matches!(MutationsRoot::check_dvr_file_path("/etc/passwd"), Err(ApiError::InvalidDvrFilePath)));
    assert!(matches!(MutationsRoot::check_dvr_file_path("a/../../b"), Err(ApiError::InvalidDvrFilePath)));
}

#[test]
fn sets_and_changes_passwords() {
    let mut state = State::new();
    assert_eq!(MutationsRoot::set_password(None, None, &mut state).ok(), Some(false));
    assert_eq!(MutationsRoot::set_password(Some("secret".into()), None, &mut state).ok(), Some(true));
    let hash = state.password_hash.clone().unwrap();
    assert_ne!(hash, "secret");
    assert!(matches!(MutationsRoot::set_password(None, None, &mut state), Err(ApiError::NoOldPassword)));
    assert!(matches!(
        MutationsRoot::set_password(None, Some("wrong".into()), &mut state),
        Err(ApiError::WrongOldPassword)
    ));
    assert_eq!(MutationsRoot::set_password(None, Some("secret".into()), &mut state).ok(), Some(true));
    assert!(state.password_hash.is_none());
    let info = QueriesRoot::info("example.com".into(), &state);
    assert_eq!(info.public_host, "example.com");
    assert!(info.password_hash.is_none());
}

#[test]
fn connects_publishes_and_plays() {
    let mut state = state_with_restream(false, true);
    assert!(on_connect(&req(Event::OnConnect, "live", None, "", false), &state).is_ok());
    assert_eq!(
        on_connect(&req(Event::OnConnect, "none", None, "", false), &state),
        Err(CallbackError::AppNotFound)
    );
    assert_eq!(
        on_callback(&req(Event::OnPublish, "live", Some("nope"), "", true), &mut state),
        Err(CallbackError::StreamNotFound)
    );
    // Publishing to the HLS endpoint is allowed locally only.
    assert_eq!(
        on_callback(&req(Event::OnPublish, "live", Some("origin"), "hls", false), &mut state),
        Err(CallbackError::OnlyLocal)
    );
    assert_eq!(on_callback(&req(Event::OnPublish, "live", Some("origin"), "", false), &mut state), Ok(()));
    let e = &state.restreams[0].input.endpoints[0];
    assert_eq!(e.status, Status::Online);
    assert_eq!(e.srs_publisher_id, Some(7));

    assert_eq!(on_callback(&req(Event::OnPlay, "live", Some("origin"), "", false), &mut state), Ok(()));
    assert_eq!(on_callback(&req(Event::OnPlay, "live", Some("origin"), "", false), &mut state), Ok(()));
    assert_eq!(state.restreams[0].input.endpoints[0].srs_player_ids, vec![7]);
    assert_eq!(on_callback(&req(Event::OnStop, "live", Some("origin"), "", false), &mut state), Ok(()));
    assert!(state.restreams[0].input.endpoints[0].srs_player_ids.is_empty());

    // HLS is served only once its endpoint is online.
    assert_eq!(
        on_callback(&req(Event::OnHls, "live", Some("origin"), "hls", false), &mut state),
        Err(CallbackError::NotReady)
    );
    assert_eq!(
        on_callback(&req(Event::OnHls, "live", Some("origin"), "", false), &mut state),
        Err(CallbackError::VhostNotAllowed)
    );
    state.restreams[0].input.endpoints[1].status = Status::Online;
    assert_eq!(on_callback(&req(Event::OnHls, "live", Some("origin"), "hls", false), &mut state), Ok(()));

    assert_eq!(on_callback(&req(Event::OnUnpublish, "live", Some("origin"), "", false), &mut state), Ok(()));
    let e = &state.restreams[0].input.endpoints[0];
    assert_eq!(e.status, Status::Offline);
    assert_eq!(e.srs_publisher_id, None);
}

#[test]
fn disabled_restreams_refuse_clients() {
    let mut state = state_with_restream(false, false);
    let id = state.restreams[0].id;
    assert_eq!(state.disable_restream(id), Some(true));
    assert_eq!(
        on_callback(&req(Event::OnPublish, "live", Some("origin"), "", true), &mut state),
        Err(CallbackError::AppNotFound)
    );
    // Stopping is still handled for a disabled re-stream.
    assert_eq!(on_callback(&req(Event::OnUnpublish, "live", Some("origin"), "", true), &mut state), Ok(()));
}

#[test]
fn zmq_ports_and_flags() {
    let mut latest = 20000;
    assert_eq!(ffmpeg::new_unique_zmq_port(&mut latest), 20000);
    assert_eq!(ffmpeg::new_unique_zmq_port(&mut latest), 20001);
    let mut last = u16::MAX;
    assert_eq!(ffmpeg::new_unique_zmq_port(&mut last), u16::MAX);
    assert_eq!(last, 20000);
    assert!(is_false(&false));
    assert!(!is_false(&true));
}

#[test]
fn authorizes_by_password() {
    let mut state = State::new();
    assert!(ephyr::restreamer::api::authorize(&state, None));
    MutationsRoot::set_password(Some("pw".into()), None, &mut state).ok().unwrap();
    assert!(!ephyr::restreamer::api::authorize(&state, None));
    assert!(!ephyr::restreamer::api::authorize(&state, Some("nope")));
    assert!(ephyr::restreamer::api::authorize(&state, Some("pw")));
    let hash = state.password_hash.clone().unwrap();
    use_token(&hash);
}

fn use_token(hash: &str) {
    use_check(ephyr::vod::meta::auth::verify_auth_token(hash, "pw"), "valid");
    use_check(ephyr::vod::meta::auth::verify_auth_token(hash, "x"), "invalid");
    use_check(ephyr::vod::meta::auth::verify_auth_token("garbage", "x"), "broken");
}

fn use_check(c: ephyr::vod::meta::auth::TokenCheck, want: &str) {
    let got = match c {
        ephyr::vod::meta::auth::TokenCheck::Valid => "valid",
        ephyr::vod::meta::auth::TokenCheck::Invalid => "invalid",
        ephyr::vod::meta::auth::TokenCheck::Broken => "broken",
    };
    assert_eq!(got, want);
}

use ephyr::restreamer::api::MutationsRoot;
use ephyr::restreamer::dvr::{new_file_path, Storage};
use ephyr::restreamer::ffmpeg::{
    CopyRestreamer, Pool, RestreamerKind, Sink, Target, TranscodingRestreamer, VolumeTune,
};
use ephyr::restreamer::state::{
    Delay, Label, MixinSrcUrl, OutputDstUrl, RestreamKey, State, Status, Volume,
};
use ephyr::weburl::WebUrl;

fn url(s: &str) -> WebUrl {
    WebUrl::parse(s).expect("valid URL")
}

fn mixin(s: &str) -> MixinSrcUrl {
    MixinSrcUrl::new(url(s)).ok().unwrap()
}

fn storage() -> Storage {
    Storage { root_path: "/var/lib/dvr".to_string() }
}

fn state_with_output(dst: &str, mixins: Vec<MixinSrcUrl>, label: Option<&str>) -> State {
    let mut state = State::new();
    let r = MutationsRoot::set_restream(
        RestreamKey::new("live").unwrap(),
        None,
        None,
        None,
        false,
        true,
        None,
        &mut state,
    );
    assert_eq!(r.ok(), Some(Some(true)));
    let rid = state.restreams[0].id;
    let dst = OutputDstUrl::new(url(dst)).ok().unwrap();
    let ok = MutationsRoot::set_output(rid, dst, label.and_then(Label::new), mixins, None, &mut state);
    assert_eq!(ok.ok(), Some(Some(true)));
    state.restreams[0].outputs[0].enabled = true;
    state
}

fn strs(v: &[String]) -> Vec<&str> {
    v.iter().map(String::as_str).collect()
}

#[test]
fn input_endpoints_need_copy_and_transcoding() {
    let mut state = state_with_output("rtmp://a.com/live/x", vec![], None);
    let r = &state.restreams[0];
    let key = &r.key;
    // Nothing is pulled into the origin input: its RTMP endpoint needs no process.
    assert!(RestreamerKind::from_input(&r.input, &r.input.endpoints[0], key).is_none());
    // The HLS endpoint needs one only once the input is ready to serve.
    assert!(RestreamerKind::from_input(&r.input, &r.input.endpoints[1], key).is_none());
    state.restreams[0].input.endpoints[0].status = Status::Online;
    let r = &state.restreams[0];
    match RestreamerKind::from_input(&r.input, &r.input.endpoints[1], &r.key) {
        Some(RestreamerKind::Transcoding(t)) => {
            assert_eq!(t.id, r.input.endpoints[1].id.0);
            assert_eq!(t.from_url, "rtmp://127.0.0.1:1935/live/origin");
            assert_eq!(t.to_url.url, "rtmp://127.0.0.1:1935/live?vhost=hls/origin");
            assert_eq!(
                strs(&t.args()),
                vec![
                    "-i",
                    "rtmp://127.0.0.1:1935/live/origin",
                    "-c:v",
                    "libx264",
                    "-preset",
                    "superfast",
                    "-profile:v",
                    "baseline",
                    "-c:a",
                    "libfdk_aac",
                    "-f",
                    "flv",
                    "rtmp://127.0.0.1:1935/live?vhost=hls/origin",
                ]
            );
        }
        other => panic!("unexpected: {:?}", other),
    }
}

#[test]
fn outputs_without_mixins_are_copied() {
    let state = state_with_output("srt://b.com:9000", vec![], None);
    let o = &state.restreams[0].outputs[0];
    let mut latest = 20000;
    let kind = RestreamerKind::from_output(o, "rtmp://127.0.0.1:1935/live/origin", &storage(), None, &mut latest);
    assert_eq!(latest, 20000);
    match kind {
        Some(RestreamerKind::Copy(c)) => {
            assert_eq!(c.id, o.id.0);
            assert_eq!(c.to_url.sink, Sink::Srt);
            assert_eq!(
                strs(&c.args()),
                vec![
                    "-i",
                    "rtmp://127.0.0.1:1935/live/origin",
                    "-c",
                    "copy",
                    "-strict",
                    "-2",
                    "-y",
                    "-f",
                    "mpegts",
                    "srt://b.com:9000",
                ]
            );
        }
        other => panic!("unexpected: {:?}", other),
    }
    let mut disabled = state_with_output("srt://b.com:9000", vec![], None);
    disabled.restreams[0].outputs[0].enabled = false;
    let o = &disabled.restreams[0].outputs[0];
    assert!(RestreamerKind::from_output(o, "rtmp://x", &storage(), None, &mut latest).is_none());
}

#[test]
fn file_outputs_record_under_the_storage() {
    let state = state_with_output("file:///rec.flv", vec![], None);
    let o = &state.restreams[0].outputs[0];
    let target = RestreamerKind::dst_url(o, &storage());
    assert_eq!(target.sink, Sink::File);
    assert_eq!(target.url, format!("file:///var/lib/dvr/{}/rec.flv", uuid_text(o.id.0)));
    let copy = CopyRestreamer { id: 1, from_url: "rtmp://in".to_string(), to_url: target };
    assert_eq!(strs(&copy.args()), vec!["-i", "rtmp://in", "-c", "copy"]);
}

fn uuid_text(v: u128) -> String {
    uuid::Uuid::from_u128(v).to_string()
}

#[test]
fn outputs_with_mixins_are_mixed() {
    let state = state_with_output(
        "rtmp://a.com/live/x",
        vec![mixin("ts://t.com:1234/chan?name=Bot"), mixin("https://m.com/a.mp3")],
        Some("Label"),
    );
    let o = &state.restreams[0].outputs[0];
    let mut latest = 30000;
    let kind = RestreamerKind::from_output(o, "rtmp://127.0.0.1:1935/live/origin", &storage(), None, &mut latest);
    assert_eq!(latest, 30003);
    let m = match kind {
        Some(RestreamerKind::Mixing(m)) => m,
        other => panic!("unexpected: {:?}", other),
    };
    assert_eq!(m.orig_zmq_port, 30000);
    assert_eq!(m.mixins[0].zmq_port, 30001);
    assert_eq!(m.mixins[1].zmq_port, 30002);
    let ts = m.mixins[0].teamspeak.as_ref().unwrap();
    assert_eq!(ts.host, "t.com:1234");
    assert_eq!(ts.channel, "chan");
    assert_eq!(ts.name, "Bot");
    assert!(m.mixins[1].teamspeak.is_none());
    assert!(m.needs_stdin());

    let id = uuid_text(m.id);
    let ts_id = uuid_text(m.mixins[0].id.0);
    let mp3_id = uuid_text(m.mixins[1].id.0);
    let fc = format!(
        "[0:a]volume@{id}=1.00,aresample=48000,azmq=bind_address=tcp\\\\\\://127.0.0.1\\\\\\:30000[{id}];\
         [1:a]volume@{ts}=1.00,aresample=async=1,adelay=delays=3500:all=1,azmq=bind_address=tcp\\\\\\://127.0.0.1\\\\\\:30001[{ts}];\
         [2:a]volume@{mp3}=1.00,aresample=48000,azmq=bind_address=tcp\\\\\\://127.0.0.1\\\\\\:30002[{mp3}];\
         [{id}][{ts}][{mp3}]amix=inputs=3:duration=longest[out]",
        id = id,
        ts = ts_id,
        mp3 = mp3_id,
    );
    let args = m.args(Some(o), false);
    assert_eq!(
        strs(&args),
        vec![
            "-i",
            "rtmp://127.0.0.1:1935/live/origin",
            "-thread_queue_size",
            "512",
            "-f",
            "f32be",
            "-sample_rate",
            "48000",
            "-channels",
            "2",
            "-use_wallclock_as_timestamps",
            "true",
            "-i",
            "pipe:0",
            "-i",
            "https://m.com/a.mp3",
            "-filter_complex",
            fc.as_str(),
            "-map",
            "[out]",
            "-max_muxing_queue_size",
            "50000000",
            "-map",
            "0:v",
            "-c:a",
            "libfdk_aac",
            "-c:v",
            "copy",
            "-shortest",
            "-f",
            "flv",
            "rtmp://a.com/live/x",
        ]
    );
    assert_eq!(strs(&m.args(None, true))[..2], ["-loglevel", "debug"]);
}

#[test]
fn teamspeak_names_fall_back_to_label_and_id() {
    let state = state_with_output("rtmp://a.com/live/x", vec![mixin("ts://t.com/room")], Some("Show"));
    let o = &state.restreams[0].outputs[0];
    let mut latest = 20000;
    let m = match RestreamerKind::from_output(o, "rtmp://in", &storage(), None, &mut latest) {
        Some(RestreamerKind::Mixing(m)) => m,
        other => panic!("unexpected: {:?}", other),
    };
    let ts = m.mixins[0].teamspeak.as_ref().unwrap();
    assert_eq!(ts.host, "t.com");
    assert_eq!(ts.channel, "room");
    assert_eq!(ts.name, "\u{1F916} Show");

    let unlabeled = state_with_output("rtmp://a.com/live/x", vec![mixin("ts://t.com/room")], None);
    let o = &unlabeled.restreams[0].outputs[0];
    let m2 = match RestreamerKind::from_output(o, "rtmp://in", &storage(), None, &mut latest) {
        Some(RestreamerKind::Mixing(m)) => m,
        other => panic!("unexpected: {:?}", other),
    };
    let ts = m2.mixins[0].teamspeak.as_ref().unwrap();
    assert_eq!(ts.name, format!("\u{1F916} {}", uuid_text(o.mixins[0].id.0)));

    // A running process hands its TeamSpeak source over to the mixin of the
    // same ID.
    let prev = RestreamerKind::Mixing(m);
    let labeled_anew = {
        let mut s = state_with_output("rtmp://a.com/live/x", vec![mixin("ts://t.com/room")], Some("Other"));
        s.restreams[0].outputs[0].mixins[0].id = match &prev {
            RestreamerKind::Mixing(p) => p.mixins[0].id,
            _ => unreachable!(),
        };
        s
    };
    let o = &labeled_anew.restreams[0].outputs[0];
    match RestreamerKind::from_output(o, "rtmp://in", &storage(), Some(&prev), &mut latest) {
        Some(RestreamerKind::Mixing(m3)) => {
            assert_eq!(m3.mixins[0].teamspeak.as_ref().unwrap().name, "\u{1F916} Show");
        }
        other => panic!("unexpected: {:?}", other),
    }
}

fn target(u: &str) -> Target {
    Target { url: u.to_string(), sink: Sink::Rtmp }
}

#[test]
fn restarts_only_on_changes_that_cannot_be_tuned() {
    let mut tunes = Vec::new();
    let mut a = RestreamerKind::Copy(CopyRestreamer { id: 1, from_url: "rtmp://a".into(), to_url: target("rtmp://b") });
    let same = RestreamerKind::Copy(CopyRestreamer { id: 2, from_url: "rtmp://a".into(), to_url: target("rtmp://b") });
    let other = RestreamerKind::Copy(CopyRestreamer { id: 1, from_url: "rtmp://c".into(), to_url: target("rtmp://b") });
    assert!(!a.needs_restart(&same, &mut tunes));
    assert!(a.needs_restart(&other, &mut tunes));
    let t = TranscodingRestreamer {
        id: 1,
        from_url: "rtmp://a".into(),
        to_url: target("rtmp://b"),
        vcodec: None,
        vpreset: None,
        vprofile: None,
        acodec: None,
    };
    assert!(a.needs_restart(&RestreamerKind::Transcoding(t), &mut tunes));
    assert!(tunes.is_empty());

    let state = state_with_output(
        "rtmp://a.com/live/x",
        vec![mixin("https://m.com/a.mp3")],
        None,
    );
    let o = &state.restreams[0].outputs[0];
    let mut latest = 20000;
    let mut running = RestreamerKind::from_output(o, "rtmp://in", &storage(), None, &mut latest).unwrap();
    let mut changed = state_with_output("rtmp://a.com/live/x", vec![mixin("https://m.com/a.mp3")], None);
    changed.restreams[0].outputs[0].id = o.id;
    changed.restreams[0].outputs[0].mixins[0].id = o.mixins[0].id;
    changed.restreams[0].outputs[0].volume = Volume::new(50).unwrap();
    changed.restreams[0].outputs[0].mixins[0].volume = Volume::new(200).unwrap();
    let o2 = &changed.restreams[0].outputs[0];
    let actual = RestreamerKind::from_output(o2, "rtmp://in", &storage(), None, &mut latest).unwrap();
    assert!(!running.needs_restart(&actual, &mut tunes));
    let (id, port, mport) = match &running {
        RestreamerKind::Mixing(m) => {
            assert_eq!(m.orig_volume.value(), 50);
            assert_eq!(m.mixins[0].volume.value(), 200);
            (m.id, m.orig_zmq_port, m.mixins[0].zmq_port)
        }
        _ => unreachable!(),
    };
    assert_eq!(
        tunes,
        vec![
            VolumeTune { track: id, port, volume: Volume::new(50).unwrap() },
            VolumeTune { track: o.mixins[0].id.0, port: mport, volume: Volume::new(200).unwrap() },
        ]
    );
    assert_eq!(tunes[0].message(), format!("volume@{} volume 0.50", uuid_text(id)));

    changed.restreams[0].outputs[0].mixins[0].delay = Delay::from_millis(10).unwrap();
    let o3 = &changed.restreams[0].outputs[0];
    let delayed = RestreamerKind::from_output(o3, "rtmp://in", &storage(), None, &mut latest).unwrap();
    assert!(running.needs_restart(&delayed, &mut tunes));
    assert_eq!(tunes.len(), 2);
}

#[test]
fn current_outputs_are_found_by_id() {
    let state = state_with_output("rtmp://a.com/live/x", vec![], None);
    let id = state.restreams[0].outputs[0].id.0;
    assert_eq!(state.current_output(id).map(|o| o.id.0), Some(id));
    assert!(state.current_output(id.wrapping_add(1)).is_none());
}

#[test]
fn pools_carry_running_processes_on() {
    let mut state = state_with_output(
        "rtmp://a.com/live/x",
        vec![mixin("https://m.com/a.mp3")],
        None,
    );
    let mut pool = Pool::new();
    let mut latest = 20000;
    assert!(Pool::can_apply(&state.restreams));
    pool.apply(&state.restreams, &storage(), &mut latest);
    // Nothing is published yet: no process is needed.
    assert!(pool.running.is_empty());

    state.restreams[0].input.endpoints[0].status = Status::Online;
    pool.apply(&state.restreams, &storage(), &mut latest);
    // The HLS endpoint transcodes, and the output mixes.
    assert_eq!(pool.running.len(), 2);
    assert!(pool.running.iter().all(|r| r.fresh));
    assert_eq!(latest, 20002);
    let hls_id = state.restreams[0].input.endpoints[1].id.0;
    let out_id = state.restreams[0].outputs[0].id.0;
    assert_eq!(pool.running[0].id, hls_id);
    assert_eq!(pool.running[1].id, out_id);

    // Applying the same state again carries every process on.
    pool.apply(&state.restreams, &storage(), &mut latest);
    assert_eq!(pool.running.len(), 2);
    assert!(pool.running.iter().all(|r| !r.fresh && r.tunes.is_empty()));

    // A new volume is tuned in place; a disabled output is dropped.
    state.restreams[0].outputs[0].volume = Volume::new(30).unwrap();
    pool.apply(&state.restreams, &storage(), &mut latest);
    let out = pool.running.iter().find(|r| r.id == out_id).unwrap();
    assert!(!out.fresh);
    assert_eq!(out.tunes.len(), 1);
    assert_eq!(out.tunes[0].volume.value(), 30);
    state.restreams[0].outputs[0].enabled = false;
    pool.apply(&state.restreams, &storage(), &mut latest);
    assert_eq!(pool.running.len(), 1);
    assert_eq!(pool.running[0].id, hls_id);
}

#[test]
fn statuses_are_renewed_by_id() {
    let mut state = state_with_output("rtmp://a.com/live/x", vec![], None);
    let out_id = state.restreams[0].outputs[0].id.0;
    let hls_id = state.restreams[0].input.endpoints[1].id.0;
    state.renew_status(out_id, Status::Online);
    assert_eq!(state.restreams[0].outputs[0].status, Status::Online);
    // Inputs get `Online` from SRS only.
    state.renew_status(hls_id, Status::Online);
    assert_eq!(state.restreams[0].input.endpoints[1].status, Status::Offline);
    state.renew_status(hls_id, Status::Initializing);
    assert_eq!(state.restreams[0].input.endpoints[1].status, Status::Initializing);
    let kind = RestreamerKind::Copy(CopyRestreamer { id: out_id, from_url: "rtmp://a".into(), to_url: target("rtmp://b") });
    kind.renew_status(Status::Offline, &mut state);
    assert_eq!(state.restreams[0].outputs[0].status, Status::Offline);
}

#[test]
fn dvr_storage_finds_leftovers_and_files() {
    let state = state_with_output("file:///rec.flv", vec![], None);
    let id = uuid_text(state.restreams[0].outputs[0].id.0);
    assert!(!Storage::is_leftover(Some(&id), &state.restreams));
    assert!(Storage::is_leftover(Some("not-a-uuid"), &state.restreams));
    assert!(Storage::is_leftover(Some(&uuid_text(7)), &state.restreams));
    assert!(Storage::is_leftover(None, &state.restreams));
    assert_eq!(storage().stored_path("/a/b.flv"), "/var/lib/dvr/a/b.flv");
    assert_eq!(storage().stored_path("a/b.flv"), "/var/lib/dvr/a/b.flv");
}

#[test]
fn recording_files_are_named_after_the_time() {
    assert_eq!(
        new_file_path("file:///var/dvr/abc/live/out.flv", 1_600_000_000_123_456),
        Some("/var/dvr/abc/live/out_1600000000123456.flv".to_string()),
    );
    assert_eq!(new_file_path("file:///var/dvr/x", 7), Some("/var/dvr/x_7.".to_string()));
    assert_eq!(new_file_path("rtmp://host/live/x", 7), None);
}

use ephyr::mixer::ffmpeg::{replace, Mixer};
use ephyr::mixer::spec::{
    AzmqFilter, Destination, Mixer as MixerSpec, MixerError, Source, Spec, SpecError,
};
use ephyr::weburl::WebUrl;

fn url(s: &str) -> WebUrl {
    WebUrl::parse(s).unwrap()
}

fn source(u: &str, delay_ms: u128, volume: &str, port: u16) -> Source {
    Source { url: url(u), delay_nanos: delay_ms * 1_000_000, volume: volume.to_string(), zmq: AzmqFilter { port } }
}

fn dest(u: &str) -> Destination {
    Destination { url: url(u) }
}

fn en_mixer() -> MixerSpec {
    MixerSpec {
        src: vec![
            ("org".to_string(), source("rtmp://127.0.0.1/[app]/[stream]", 0, "1", 60010)),
            ("trn".to_string(), source("ts://127.0.0.1:9067/translation/en", 300, "1.5", 60011)),
        ],
        dest: vec![
            ("output".to_string(), dest("rtmp://127.0.0.1/output/en_[stream]")),
            ("youtube".to_string(), dest("rtmp://rtmp.youtube.com/stream-key")),
        ],
    }
}

#[test]
fn validates_the_documented_spec() {
    let spec = Spec { spec: vec![("en".to_string(), vec![("m".to_string(), en_mixer())])] };
    assert!(spec.validate().is_empty());
    assert_eq!(AzmqFilter::default().port, 5555);
}

#[test]
fn reports_every_problem_of_a_mixer() {
    let empty = MixerSpec { src: vec![], dest: vec![] };
    assert_eq!(empty.validate(), vec![MixerError::NoSources, MixerError::NoDestinations]);
    let bad = MixerSpec {
        src: vec![("x".to_string(), Source {
            url: url("http://a.com/x"),
            delay_nanos: 1_500_000,
            volume: "1".to_string(),
            zmq: AzmqFilter::default(),
        })],
        dest: vec![("y".to_string(), dest("srt://b.com:1"))],
    };
    assert_eq!(
        bad.validate(),
        vec![
            MixerError::UnsupportedSource("x".to_string()),
            MixerError::ImpreciseDelay("x".to_string()),
            MixerError::UnsupportedDestination("y".to_string()),
        ]
    );
    let spec = Spec { spec: vec![("app".to_string(), vec![("m".to_string(), empty)])] };
    assert_eq!(
        spec.validate(),
        vec![
            SpecError { app: "app".into(), mixer: "m".into(), error: MixerError::NoSources },
            SpecError { app: "app".into(), mixer: "m".into(), error: MixerError::NoDestinations },
        ]
    );
    assert!(spec.mixers_of("app").is_some());
    assert!(spec.mixers_of("other").is_none());
}

#[test]
fn replaces_placeholders() {
    assert_eq!(replace("rtmp://h/[app]/[app]x", "[app]", "live"), "rtmp://h/live/livex");
    assert_eq!(replace("aaa", "aa", "b"), "ba");
    assert_eq!(replace("abc", "", "x"), "abc");
}

#[test]
fn builds_the_ffmpeg_command_of_a_mixer() {
    let m = Mixer::new("live", "s1", "m1", &en_mixer(), false);
    let args: Vec<&str> = m.args.iter().map(String::as_str).collect();
    assert_eq!(
        args,
        vec![
            "-thread_queue_size",
            "512",
            "-i",
            "rtmp://127.0.0.1/live/s1",
            "-thread_queue_size",
            "512",
            "-f",
            "f32be",
            "-sample_rate",
            "48000",
            "-channels",
            "2",
            "-use_wallclock_as_timestamps",
            "true",
            "-i",
            "pipe:0",
            "-filter_complex",
            "[0:a]volume@org=1,aresample=48000,azmq=bind_address=tcp\\\\\\://0.0.0.0\\\\\\:60010[org];\
             [1:a]volume@trn=1.5,aresample=async=1,adelay=delays=300:all=1,azmq=bind_address=tcp\\\\\\://0.0.0.0\\\\\\:60011[trn];\
             [org][trn]amix=inputs=2:duration=longest[out]",
            "-map",
            "[out]",
            "-map",
            "0:v",
            "-max_muxing_queue_size",
            "50000000",
            "-c:a",
            "libfdk_aac",
            "-c:v",
            "copy",
            "-shortest",
            "-f",
            "tee",
            "[f=flv]rtmp://127.0.0.1/output/en_s1|[f=flv]rtmp://rtmp.youtube.com/stream-key",
        ]
    );
    let ts = m.teamspeak.unwrap();
    assert_eq!(ts.host, "127.0.0.1:9067");
    assert_eq!(ts.channel, "translation/en");
    assert_eq!(ts.name, "\u{1F916} live/s1 <- m1/trn");

    let single = MixerSpec {
        src: vec![("org".to_string(), source("rtmp://127.0.0.1/[app]/[stream]", 0, "1", 1))],
        dest: vec![("out".to_string(), dest("rtmp://127.0.0.1/[app]_out/[stream]"))],
    };
    let m = Mixer::new("a", "b", "n", &single, true);
    let args: Vec<&str> = m.args.iter().map(String::as_str).collect();
    assert_eq!(&args[..2], &["-loglevel", "debug"]);
    assert_eq!(&args[args.len() - 3..], &["-f", "flv", "rtmp://127.0.0.1/a_out/b"]);
    assert!(m.teamspeak.is_none());
}

//! FFmpeg process of a mixer: its command-line arguments and the TeamSpeak
//! channel whose audio it reads from its standard input.

use vstd::prelude::*;

use crate::mixer::spec::{Mixer as MixerSpec, Source};
use crate::text::{decimal, push_char, push_decimal, push_str, str_eq};

verus! {

/// The text `s` with every occurrence of `pat` replaced by `with`, from left
/// to right and without overlaps, as `str::replace` does.
pub open spec fn replaced(s: Seq<char>, pat: Seq<char>, with: Seq<char>) -> Seq<char>
    decreases s.len(),
{
    if pat.len() == 0 || s.len() < pat.len() {
        s
    } else if s.take(pat.len() as int) == pat {
        with + replaced(s.skip(pat.len() as int), pat, with)
    } else {
        seq![s[0]] + replaced(s.drop_first(), pat, with)
    }
}

/// Whether `pat` occurs in `cs` at `i`.
fn occurs_at(cs: &Vec<char>, pat: &Vec<char>, i: usize) -> (res: bool)
    requires
        i <= cs@.len(),
    ensures
        res == (i + pat@.len() <= cs@.len() && cs@.subrange(i as int, i + pat@.len()) == pat@),
{
    if pat.len() > cs.len() - i {
        return false;
    }
    let mut k: usize = 0;
    while k < pat.len()
        invariant
            k <= pat@.len(),
            i <= cs@.len(),
            cs@.len() <= usize::MAX,
            i + pat@.len() <= cs@.len(),
            forall|j: int| 0 <= j < k ==> cs@[i + j] == pat@[j],
        decreases pat@.len() - k,
    {
        if cs[i + k] != pat[k] {
            return false;
        }
        k = k + 1;
    }
    assert(cs@.subrange(i as int, i + pat@.len()) =~= pat@);
    true
}

/// The text with every occurrence of `pat` replaced by `with`.
pub fn replace(s: &str, pat: &str, with: &str) -> (res: String)
    ensures
        res@ == replaced(s@, pat@, with@),
{
    let cs = crate::text::chars_of(s);
    let ps = crate::text::chars_of(pat);
    let mut out = String::new();
    let mut i: usize = 0;
    assert(cs@.skip(0) =~= cs@);
    if ps.len() == 0 {
        push_str(&mut out, s);
        return out;
    }
    while i < cs.len()
        invariant
            i <= cs@.len(),
            cs@ == s@,
            ps@ == pat@,
            ps@.len() > 0,
            out@ + replaced(cs@.skip(i as int), pat@, with@) == replaced(s@, pat@, with@),
        decreases cs@.len() - i,
    {
        let ghost rest = cs@.skip(i as int);
        if occurs_at(&cs, &ps, i) {
            assert(rest.take(pat@.len() as int) =~= cs@.subrange(i as int, i + pat@.len()));
            assert(rest.skip(pat@.len() as int) =~= cs@.skip(i + pat@.len()));
            push_str(&mut out, with);
            assert(out@ + replaced(cs@.skip(i + pat@.len()), pat@, with@) =~= replaced(s@, pat@, with@));
            i = i + ps.len();
        } else {
            proof {
                if rest.len() >= pat@.len() {
                    assert(rest.take(pat@.len() as int) =~= cs@.subrange(i as int, i + pat@.len()));
                    assert(rest.drop_first() =~= cs@.skip(i + 1));
                } else {
                    assert(replaced(rest, pat@, with@) == rest);
                    assert(rest =~= seq![rest[0]] + cs@.skip(i + 1));
                    lemma_replaced_short(cs@.skip((i + 1) as int), pat@, with@);
                }
            }
            push_char(&mut out, cs[i]);
            assert(out@ + replaced(cs@.skip(i + 1), pat@, with@) =~= replaced(s@, pat@, with@));
            i = i + 1;
        }
    }
    assert(cs@.skip(i as int) =~= Seq::<char>::empty());
    assert(replaced(Seq::<char>::empty(), pat@, with@) == Seq::<char>::empty());
    assert(out@ =~= replaced(s@, pat@, with@));
    out
}

/// A text shorter than the pattern is left as it is.
proof fn lemma_replaced_short(s: Seq<char>, pat: Seq<char>, with: Seq<char>)
    requires
        s.len() < pat.len(),
    ensures
        replaced(s, pat, with) == s,
{
}

/// A URL with `[app]` and `[stream]` replaced by the live stream being
/// mixed.
pub open spec fn expanded(url: Seq<char>, app: Seq<char>, stream: Seq<char>) -> Seq<char> {
    replaced(replaced(url, "[app]"@, app), "[stream]"@, stream)
}

/// TeamSpeak channel whose audio a mixer reads.
#[derive(Debug)]
pub struct TeamspeakConfig {
    /// Host of the server, with its port if the URL gives one.
    pub host: String,
    /// Channel to join.
    pub channel: String,
    /// Name to join the channel with.
    pub name: String,
}

/// FFmpeg process of a mixer of a live stream.
#[derive(Debug)]
pub struct Mixer {
    /// RTMP application of the live stream.
    pub app: String,
    /// RTMP key of the live stream.
    pub stream: String,
    /// Name of the mixer.
    pub name: String,
    /// Command-line arguments of FFmpeg.
    pub args: Vec<String>,
    /// TeamSpeak channel whose audio is fed into the standard input of
    /// FFmpeg, if any.
    pub teamspeak: Option<TeamspeakConfig>,
}

/// Texts of the arguments.
pub open spec fn args_view(v: Seq<String>) -> Seq<Seq<char>> {
    v.map_values(|s: String| s@)
}

/// Whether a source is a TeamSpeak one.
pub open spec fn is_teamspeak(s: Source) -> bool {
    s.url@.scheme == "ts"@
}

/// Input arguments of a source.
pub open spec fn source_args(s: Source, app: Seq<char>, stream: Seq<char>) -> Seq<Seq<char>> {
    if is_teamspeak(s) {
        seq![
            "-thread_queue_size"@,
            "512"@,
            "-f"@,
            "f32be"@,
            "-sample_rate"@,
            "48000"@,
            "-channels"@,
            "2"@,
            "-use_wallclock_as_timestamps"@,
            "true"@,
            "-i"@,
            "pipe:0"@,
        ]
    } else {
        seq!["-thread_queue_size"@, "512"@, "-i"@, expanded(s.url@.text, app, stream)]
    }
}

/// Input arguments of the first `n` sources.
pub open spec fn sources_args(src: Seq<(String, Source)>, n: nat, app: Seq<char>, stream: Seq<char>) -> Seq<
    Seq<char>,
>
    decreases n,
{
    if n == 0 {
        Seq::empty()
    } else {
        sources_args(src, (n - 1) as nat, app, stream) + source_args(src[n - 1].1, app, stream)
    }
}

/// Delay of a source in whole milliseconds.
pub open spec fn delay_millis(s: Source) -> nat {
    (s.delay_nanos / 1_000_000) as nat
}

/// Filter chain of the named source that is the input number `n`.
pub open spec fn source_filter(n: nat, name: Seq<char>, s: Source) -> Seq<char> {
    "["@ + decimal(n) + ":a]"@ + "volume@"@ + name + "="@ + s.volume@ + ","@ + (if is_teamspeak(s) {
        "aresample=async=1,"@
    } else if s.url@.scheme == "rtmp"@ {
        "aresample=48000,"@
    } else {
        Seq::empty()
    }) + (if delay_millis(s) > 0 {
        "adelay=delays="@ + decimal(delay_millis(s)) + ":all=1,"@
    } else {
        Seq::empty()
    }) + "azmq=bind_address=tcp\\\\\\://0.0.0.0\\\\\\:"@ + decimal(s.zmq.port as nat) + "["@ + name
        + "]"@
}

/// Filter chains of the first `n` sources, each followed by a `;`.
pub open spec fn source_filters(src: Seq<(String, Source)>, n: nat) -> Seq<char>
    decreases n,
{
    if n == 0 {
        Seq::empty()
    } else {
        source_filters(src, (n - 1) as nat) + source_filter((n - 1) as nat, src[n - 1].0@, src[n - 1].1)
            + ";"@
    }
}

/// Names of the first `n` sources joined by `][`.
pub open spec fn source_names(src: Seq<(String, Source)>, n: nat) -> Seq<char>
    decreases n,
{
    if n == 0 {
        Seq::empty()
    } else if n == 1 {
        src[0].0@
    } else {
        source_names(src, (n - 1) as nat) + "]["@ + src[n - 1].0@
    }
}

/// The whole `-filter_complex` of a mixer: the chain of each source, then
/// the mix of them all.
pub open spec fn mixer_filters(src: Seq<(String, Source)>) -> Seq<char> {
    source_filters(src, src.len()) + "["@ + source_names(src, src.len()) + "]amix=inputs="@ + decimal(
        src.len(),
    ) + ":duration=longest[out]"@
}

/// Index of the video input: the last RTMP source, else the first input.
pub open spec fn video_input(src: Seq<(String, Source)>, n: nat) -> nat
    decreases n,
{
    if n == 0 {
        0
    } else if src[n - 1].1.url@.scheme == "rtmp"@ {
        (n - 1) as nat
    } else {
        video_input(src, (n - 1) as nat)
    }
}

/// The video of a mixer is taken from an RTMP source whenever there is one
/// among the first `n` sources (the last of them: no RTMP source follows
/// it), and from the first input otherwise; the TeamSpeak audio input has
/// no video to take.
pub proof fn lemma_video_from_rtmp_source(src: Seq<(String, Source)>, n: nat)
    requires
        n <= src.len(),
    ensures
        (exists|j: int| 0 <= j < n && (#[trigger] src[j]).1.url@.scheme == "rtmp"@) ==> {
            &&& video_input(src, n) < n
            &&& src[video_input(src, n) as int].1.url@.scheme == "rtmp"@
            &&& forall|j: int| video_input(src, n) < j < n ==> (#[trigger] src[j]).1.url@.scheme
                != "rtmp"@
        },
        (forall|j: int| 0 <= j < n ==> (#[trigger] src[j]).1.url@.scheme != "rtmp"@) ==> video_input(
            src,
            n,
        ) == 0,
    decreases n,
{
    if n > 0 {
        lemma_video_from_rtmp_source(src, (n - 1) as nat);
        if src[n - 1].1.url@.scheme != "rtmp"@ {
            if exists|j: int| 0 <= j < n && (#[trigger] src[j]).1.url@.scheme == "rtmp"@ {
                let j = choose|j: int| 0 <= j < n && (#[trigger] src[j]).1.url@.scheme == "rtmp"@;
                assert(j < n - 1);
            }
        }
    }
}

/// Destinations of a `tee` muxer for the first `n` URLs, joined by `|`.
pub open spec fn tee_targets(urls: Seq<Seq<char>>, n: nat) -> Seq<char>
    decreases n,
{
    if n == 0 {
        Seq::empty()
    } else if n == 1 {
        "[f=flv]"@ + urls[0]
    } else {
        tee_targets(urls, (n - 1) as nat) + "|"@ + "[f=flv]"@ + urls[n - 1]
    }
}

/// Arguments that push the mix to the destinations: into FLV onto the only
/// one, or through a `tee` muxer onto several.
pub open spec fn dest_args(urls: Seq<Seq<char>>) -> Seq<Seq<char>> {
    if urls.len() > 1 {
        seq!["-f"@, "tee"@, tee_targets(urls, urls.len())]
    } else {
        seq!["-f"@, "flv"@, urls[0]]
    }
}

/// Destination URLs of a mixer with `[app]` and `[stream]` replaced.
pub open spec fn dest_urls(cfg: MixerSpec, app: Seq<char>, stream: Seq<char>) -> Seq<Seq<char>> {
    Seq::new(cfg.dest@.len(), |i: int| expanded(cfg.dest@[i].1.url@.text, app, stream))
}

/// Arguments of the FFmpeg process of a mixer (`debug` asks FFmpeg for a
/// debug log).
pub open spec fn mixer_args(cfg: MixerSpec, app: Seq<char>, stream: Seq<char>, debug: bool) -> Seq<Seq<char>> {
    (if debug {
        seq!["-loglevel"@, "debug"@]
    } else {
        Seq::empty()
    }) + sources_args(cfg.src@, cfg.src@.len(), app, stream) + mix_args(
        mixer_filters(cfg.src@),
        decimal(video_input(cfg.src@, cfg.src@.len())) + ":v"@,
    ) + dest_args(dest_urls(cfg, app, stream))
}

/// The FFmpeg command of a mixer maps its video from an RTMP source whenever
/// it has one (the last of them), and pushes the mix onto a single
/// destination as FLV, the destination coming last.
pub proof fn lemma_mixer_video_and_destination(cfg: MixerSpec, app: Seq<char>, stream: Seq<char>, debug: bool)
    ensures
        ({
            let a = mixer_args(cfg, app, stream, debug);
            (exists|j: int| 0 <= j < cfg.src@.len() && (#[trigger] cfg.src@[j]).1.url@.scheme == "rtmp"@)
                ==> exists|i: int, v: int|
                #![trigger a[i], cfg.src@[v]]
                0 <= i < a.len() - 1 && a[i] == "-map"@ && a[i + 1] == decimal(v as nat)
                    + ":v"@ && 0 <= v < cfg.src@.len() && cfg.src@[v].1.url@.scheme == "rtmp"@ && (
                forall|j: int| v < j < cfg.src@.len() ==> (#[trigger] cfg.src@[j]).1.url@.scheme
                    != "rtmp"@)
        }),
        cfg.dest@.len() == 1 ==> {
            let a = mixer_args(cfg, app, stream, debug);
            &&& a.len() >= 3
            &&& a[a.len() - 3] == "-f"@
            &&& a[a.len() - 2] == "flv"@
            &&& a[a.len() - 1] == expanded(cfg.dest@[0].1.url@.text, app, stream)
        },
{
    let d: Seq<Seq<char>> = if debug {
        seq!["-loglevel"@, "debug"@]
    } else {
        Seq::empty()
    };
    let sa = sources_args(cfg.src@, cfg.src@.len(), app, stream);
    let v = video_input(cfg.src@, cfg.src@.len());
    let m = mix_args(mixer_filters(cfg.src@), decimal(v) + ":v"@);
    let t = dest_args(dest_urls(cfg, app, stream));
    let a = mixer_args(cfg, app, stream, debug);
    assert(a == d + sa + m + t);
    lemma_video_from_rtmp_source(cfg.src@, cfg.src@.len());
    let i: int = (d.len() + sa.len() + 4) as int;
    assert(a[i] == m[4]);
    assert(a[i + 1] == m[5]);
    if exists|j: int| 0 <= j < cfg.src@.len() && (#[trigger] cfg.src@[j]).1.url@.scheme == "rtmp"@ {
        assert(0 <= i < a.len() - 1 && a[i] == "-map"@ && a[i + 1] == decimal(v as int as nat) + ":v"@
            && 0 <= v < cfg.src@.len() && cfg.src@[v as int].1.url@.scheme == "rtmp"@);
    }
    if cfg.dest@.len() == 1 {
        assert(t == seq!["-f"@, "flv"@, dest_urls(cfg, app, stream)[0]]);
        assert(a[a.len() - 3] == t[0]);
        assert(a[a.len() - 2] == t[1]);
        assert(a[a.len() - 1] == t[2]);
    }
}

/// Name that a mixer joins a TeamSpeak channel with: a robot face, the live
/// stream, and the mixer and source it mixes for.
pub open spec fn teamspeak_name(app: Seq<char>, stream: Seq<char>, mixer: Seq<char>, src: Seq<char>) -> Seq<
    char,
> {
    "\u{1F916} "@ + app + "/"@ + stream + " <- "@ + mixer + "/"@ + src
}

/// TeamSpeak channel of the named source, for a mixer of the given name and
/// live stream: the host with the port, if any, and the path without its
/// first character.
pub open spec fn teamspeak_of(
    s: Source,
    src_name: Seq<char>,
    app: Seq<char>,
    stream: Seq<char>,
    mixer: Seq<char>,
) -> (Seq<char>, Seq<char>, Seq<char>) {
    let u = s.url@;
    (
        match u.port {
            Some(p) => u.host->Some_0 + ":"@ + decimal(p as nat),
            None => u.host->Some_0,
        },
        u.path.drop_first(),
        teamspeak_name(app, stream, mixer, src_name),
    )
}

/// The TeamSpeak channel that the first `n` sources make a mixer read: the
/// one of the last TeamSpeak source among them, if any.
pub open spec fn teamspeak_among(
    src: Seq<(String, Source)>,
    n: nat,
    app: Seq<char>,
    stream: Seq<char>,
    mixer: Seq<char>,
) -> Option<(Seq<char>, Seq<char>, Seq<char>)>
    decreases n,
{
    if n == 0 {
        None
    } else if is_teamspeak(src[n - 1].1) {
        Some(teamspeak_of(src[n - 1].1, src[n - 1].0@, app, stream, mixer))
    } else {
        teamspeak_among(src, (n - 1) as nat, app, stream, mixer)
    }
}

/// Texts of an optional TeamSpeak channel.
pub open spec fn teamspeak_view(t: Option<TeamspeakConfig>) -> Option<(Seq<char>, Seq<char>, Seq<char>)> {
    match t {
        Some(t) => Some((t.host@, t.channel@, t.name@)),
        None => None,
    }
}

/// Whether a mixer can be run: it has a destination, its sources are RTMP
/// or TeamSpeak ones, and those of TeamSpeak have a host and a path.
pub open spec fn runnable(cfg: MixerSpec) -> bool {
    &&& cfg.dest@.len() > 0
    &&& forall|i: int|
        0 <= i < cfg.src@.len() ==> {
            let s = (#[trigger] cfg.src@[i]).1;
            &&& s.url@.scheme == "rtmp"@ || s.url@.scheme == "ts"@
            &&& is_teamspeak(s) ==> s.url@.host is Some && s.url@.path.len() > 0
        }
}

/// Appends an argument.
fn push_arg(args: &mut Vec<String>, s: &str)
    ensures
        args_view(final(args)@) == args_view(old(args)@).push(s@),
{
    let mut a = String::new();
    push_str(&mut a, s);
    args.push(a);
    proof {
        assert(args_view(final(args)@) =~= args_view(old(args)@).push(s@));
    }
}

/// Appends the decimal representation of `n`.
fn push_decimal128(out: &mut String, n: u128)
    ensures
        final(out)@ == old(out)@ + decimal(n as nat),
    decreases n,
{
    if n >= 10 {
        push_decimal128(out, n / 10);
    }
    push_char(out, crate::text::digit_to_char((n % 10) as u64));
    assert(final(out)@ =~= old(out)@ + decimal(n as nat));
}

/// The URL text with `[app]` and `[stream]` replaced.
fn expand(url: &str, app: &str, stream: &str) -> (res: String)
    ensures
        res@ == expanded(url@, app@, stream@),
{
    let a = replace(url, "[app]", app);
    replace(a.as_str(), "[stream]", stream)
}

/// The text without its first character.
fn drop_first_char(s: &str) -> (res: String)
    requires
        s@.len() > 0,
    ensures
        res@ == s@.drop_first(),
{
    let cs = crate::text::chars_of(s);
    let mut out = String::new();
    let mut i: usize = 1;
    while i < cs.len()
        invariant
            1 <= i <= cs@.len(),
            cs@ == s@,
            out@ == cs@.subrange(1, i as int),
        decreases cs@.len() - i,
    {
        push_char(&mut out, cs[i]);
        assert(out@ =~= cs@.subrange(1, i + 1));
        i = i + 1;
    }
    assert(out@ =~= s@.drop_first());
    out
}

/// Filter chain of the named source that is the input number `n`.
fn source_filter_text(n: u64, name: &String, s: &Source) -> (res: String)
    ensures
        res@ == source_filter(n as nat, name@, *s),
{
    let scheme = s.url.scheme();
    let mut f = String::new();
    push_str(&mut f, "[");
    push_decimal(&mut f, n);
    push_str(&mut f, ":a]");
    push_str(&mut f, "volume@");
    push_str(&mut f, name.as_str());
    push_str(&mut f, "=");
    push_str(&mut f, s.volume.as_str());
    push_str(&mut f, ",");
    let ghost head = f@;
    let mut extra = String::new();
    if str_eq(scheme, "ts") {
        push_str(&mut extra, "aresample=async=1,");
    } else if str_eq(scheme, "rtmp") {
        push_str(&mut extra, "aresample=48000,");
    }
    let ms = s.delay_nanos / 1_000_000;
    if ms > 0 {
        push_str(&mut extra, "adelay=delays=");
        push_decimal128(&mut extra, ms);
        push_str(&mut extra, ":all=1,");
    }
    push_str(&mut f, extra.as_str());
    let ghost mid = f@;
    push_str(&mut f, "azmq=bind_address=tcp\\\\\\://0.0.0.0\\\\\\:");
    push_decimal(&mut f, s.zmq.port as u64);
    push_str(&mut f, "[");
    push_str(&mut f, name.as_str());
    push_str(&mut f, "]");
    assert(f@ =~= mid + "azmq=bind_address=tcp\\\\\\://0.0.0.0\\\\\\:"@ + decimal(s.zmq.port as nat)
        + "["@ + name@ + "]"@);
    assert(f@ =~= source_filter(n as nat, name@, *s));
    f
}

/// The TeamSpeak channel of the named source.
fn teamspeak_config(s: &Source, src_name: &String, app: &str, stream: &str, mixer: &str) -> (res:
    TeamspeakConfig)
    requires
        s.url@.host is Some,
        s.url@.path.len() > 0,
    ensures
        teamspeak_view(Some(res)) == Some(teamspeak_of(*s, src_name@, app@, stream@, mixer@)),
{
    let mut host = String::new();
    match s.url.host_str() {
        Some(h) => push_str(&mut host, h),
        None => {},
    }
    match s.url.port() {
        Some(p) => {
            push_str(&mut host, ":");
            push_decimal(&mut host, p as u64);
        },
        None => {},
    }
    let channel = drop_first_char(s.url.path());
    let mut name = String::new();
    push_str(&mut name, "\u{1F916} ");
    push_str(&mut name, app);
    push_str(&mut name, "/");
    push_str(&mut name, stream);
    push_str(&mut name, " <- ");
    push_str(&mut name, mixer);
    push_str(&mut name, "/");
    push_str(&mut name, src_name.as_str());
    TeamspeakConfig { host, channel, name }
}

/// Appends the input arguments of a source.
fn push_source_args(args: &mut Vec<String>, s: &Source, app: &str, stream: &str)
    requires
        s.url@.scheme == "rtmp"@ || s.url@.scheme == "ts"@,
    ensures
        args_view(final(args)@) == args_view(old(args)@) + source_args(*s, app@, stream@),
{
    if str_eq(s.url.scheme(), "ts") {
        push_arg(args, "-thread_queue_size");
        push_arg(args, "512");
        push_arg(args, "-f");
        push_arg(args, "f32be");
        push_arg(args, "-sample_rate");
        push_arg(args, "48000");
        push_arg(args, "-channels");
        push_arg(args, "2");
        push_arg(args, "-use_wallclock_as_timestamps");
        push_arg(args, "true");
        push_arg(args, "-i");
        push_arg(args, "pipe:0");
    } else {
        let url = expand(s.url.as_str(), app, stream);
        push_arg(args, "-thread_queue_size");
        push_arg(args, "512");
        push_arg(args, "-i");
        push_arg(args, url.as_str());
    }
    proof {
        assert(args_view(final(args)@) =~= args_view(old(args)@) + source_args(*s, app@, stream@));
    }
}

/// What the sources make of a mixer: the input arguments, the TeamSpeak
/// channel read, the filter chains, the names and the video input.
struct Sources {
    teamspeak: Option<TeamspeakConfig>,
    filters: String,
    names: String,
    video: usize,
}

/// Appends the input arguments of the sources of a mixer, and gives what
/// else they make of it.
fn push_sources(args: &mut Vec<String>, app: &str, stream: &str, name: &str, cfg: &MixerSpec) -> (res:
    Sources)
    requires
        runnable(*cfg),
    ensures
        args_view(final(args)@) == args_view(old(args)@) + sources_args(
            cfg.src@,
            cfg.src@.len(),
            app@,
            stream@,
        ),
        teamspeak_view(res.teamspeak) == teamspeak_among(cfg.src@, cfg.src@.len(), app@, stream@, name@),
        res.filters@ == source_filters(cfg.src@, cfg.src@.len()),
        res.names@ == source_names(cfg.src@, cfg.src@.len()),
        res.video == video_input(cfg.src@, cfg.src@.len()),
{
    let ghost head = args_view(args@);
    let mut teamspeak: Option<TeamspeakConfig> = None;
    let mut filters = String::new();
    let mut names = String::new();
    let mut video: usize = 0;
    let mut i: usize = 0;
    while i < cfg.src.len()
        invariant
            i <= cfg.src@.len(),
            runnable(*cfg),
            args_view(args@) == head + sources_args(cfg.src@, i as nat, app@, stream@),
            teamspeak_view(teamspeak) == teamspeak_among(cfg.src@, i as nat, app@, stream@, name@),
            filters@ == source_filters(cfg.src@, i as nat),
            names@ == source_names(cfg.src@, i as nat),
            video == video_input(cfg.src@, i as nat),
        decreases cfg.src@.len() - i,
    {
        let (src_name, s) = &cfg.src[i];
        assert(cfg.src@[i as int].1 == *s && cfg.src@[i as int].0 == *src_name);
        push_source_args(args, s, app, stream);
        let ts = str_eq(s.url.scheme(), "ts");
        if ts {
            teamspeak = Some(teamspeak_config(s, src_name, app, stream, name));
        } else {
            video = i;
        }
        proof {
            assert(s.url@.scheme == "rtmp"@ || s.url@.scheme == "ts"@);
            reveal_strlit("ts");
            reveal_strlit("rtmp");
            let n = (i + 1) as nat;
            assert(cfg.src@[n - 1] == cfg.src@[i as int]);
            if !ts {
                assert(s.url@.scheme == "rtmp"@);
                assert(cfg.src@[n - 1].1.url@.scheme == "rtmp"@);
                assert(video_input(cfg.src@, n) == i);
            } else {
                assert(s.url@.scheme == "ts"@);
                assert("ts"@.len() == 2);
                assert("rtmp"@.len() == 4);
                assert(cfg.src@[n - 1].1.url@.scheme != "rtmp"@);
                assert(video_input(cfg.src@, n) == video_input(cfg.src@, i as nat));
            }
            assert(video == video_input(cfg.src@, (i + 1) as nat));
        }
        let f = source_filter_text(i as u64, src_name, s);
        push_str(&mut filters, f.as_str());
        push_str(&mut filters, ";");
        if i > 0 {
            push_str(&mut names, "][");
        }
        push_str(&mut names, src_name.as_str());
        proof {
            assert(args_view(args@) =~= head + sources_args(cfg.src@, (i + 1) as nat, app@, stream@));
            assert(filters@ =~= source_filters(cfg.src@, (i + 1) as nat));
            assert(names@ =~= source_names(cfg.src@, (i + 1) as nat));
        }
        i = i + 1;
    }
    Sources { teamspeak, filters, names, video }
}

/// Appends the arguments that push the mix to the destinations of a mixer.
fn push_dest_args(args: &mut Vec<String>, app: &str, stream: &str, cfg: &MixerSpec)
    requires
        cfg.dest@.len() > 0,
    ensures
        args_view(final(args)@) == args_view(old(args)@) + dest_args(dest_urls(*cfg, app@, stream@)),
{
    let ghost urls = dest_urls(*cfg, app@, stream@);
    if cfg.dest.len() > 1 {
        let mut tee = String::new();
        let mut k: usize = 0;
        while k < cfg.dest.len()
            invariant
                k <= cfg.dest@.len(),
                urls == dest_urls(*cfg, app@, stream@),
                tee@ == tee_targets(urls, k as nat),
            decreases cfg.dest@.len() - k,
        {
            let u = expand(cfg.dest[k].1.url.as_str(), app, stream);
            if k > 0 {
                push_str(&mut tee, "|");
            }
            push_str(&mut tee, "[f=flv]");
            push_str(&mut tee, u.as_str());
            proof {
                assert(tee@ =~= tee_targets(urls, (k + 1) as nat));
            }
            k = k + 1;
        }
        push_arg(args, "-f");
        push_arg(args, "tee");
        push_arg(args, tee.as_str());
    } else {
        let u = expand(cfg.dest[0].1.url.as_str(), app, stream);
        push_arg(args, "-f");
        push_arg(args, "flv");
        push_arg(args, u.as_str());
    }
    proof {
        assert(args_view(final(args)@) =~= args_view(old(args)@) + dest_args(urls));
    }
}

/// A copy of the text.
fn owned(s: &str) -> (res: String)
    ensures
        res@ == s@,
{
    let mut r = String::new();
    push_str(&mut r, s);
    r
}

/// Arguments of a mixer between its inputs and its destinations.
pub open spec fn mix_args(filters: Seq<char>, video: Seq<char>) -> Seq<Seq<char>> {
    seq![
        "-filter_complex"@,
        filters,
        "-map"@,
        "[out]"@,
        "-map"@,
        video,
        "-max_muxing_queue_size"@,
        "50000000"@,
        "-c:a"@,
        "libfdk_aac"@,
        "-c:v"@,
        "copy"@,
        "-shortest"@,
    ]
}

/// Appends the arguments of a mixer between its inputs and its
/// destinations.
fn push_mix_args(args: &mut Vec<String>, filters: &str, video: &str)
    ensures
        args_view(final(args)@) == args_view(old(args)@) + mix_args(filters@, video@),
{
    push_arg(args, "-filter_complex");
    push_arg(args, filters);
    push_arg(args, "-map");
    push_arg(args, "[out]");
    push_arg(args, "-map");
    push_arg(args, video);
    push_arg(args, "-max_muxing_queue_size");
    push_arg(args, "50000000");
    push_arg(args, "-c:a");
    push_arg(args, "libfdk_aac");
    push_arg(args, "-c:v");
    push_arg(args, "copy");
    push_arg(args, "-shortest");
    proof {
        assert(args_view(final(args)@) =~= args_view(old(args)@) + mix_args(filters@, video@));
    }
}

impl Mixer {
    /// The FFmpeg process of the named mixer of the live stream `stream` of
    /// the application `app`, as `cfg` specifies it (`debug` asks FFmpeg for
    /// a debug log).
    ///
    /// Each source is an input: an RTMP one by its URL, a TeamSpeak one
    /// through the standard input (the last TeamSpeak source is the channel
    /// read). Each input's audio goes through its volume, resampling, delay
    /// and ZeroMQ listener before all are mixed; the video is the one of
    /// the last RTMP source.
    pub fn new(app: &str, stream: &str, name: &str, cfg: &MixerSpec, debug: bool) -> (res: Mixer)
        requires
            runnable(*cfg),
        ensures
            res.app@ == app@,
            res.stream@ == stream@,
            res.name@ == name@,
            args_view(res.args@) == mixer_args(*cfg, app@, stream@, debug),
            teamspeak_view(res.teamspeak) == teamspeak_among(
                cfg.src@,
                cfg.src@.len(),
                app@,
                stream@,
                name@,
            ),
    {
        let mut args: Vec<String> = Vec::new();
        if debug {
            push_arg(&mut args, "-loglevel");
            push_arg(&mut args, "debug");
        }
        let ghost head = args_view(args@);
        let srcs = push_sources(&mut args, app, stream, name, cfg);
        let ghost inputs = args_view(args@);
        let mut filters = srcs.filters;
        push_str(&mut filters, "[");
        push_str(&mut filters, srcs.names.as_str());
        push_str(&mut filters, "]amix=inputs=");
        push_decimal(&mut filters, cfg.src.len() as u64);
        push_str(&mut filters, ":duration=longest[out]");
        assert(filters@ =~= mixer_filters(cfg.src@));
        let mut vmap = String::new();
        push_decimal(&mut vmap, srcs.video as u64);
        push_str(&mut vmap, ":v");
        assert(vmap@ =~= decimal(video_input(cfg.src@, cfg.src@.len())) + ":v"@);
        push_mix_args(&mut args, filters.as_str(), vmap.as_str());
        push_dest_args(&mut args, app, stream, cfg);
        proof {
            assert(args_view(args@) =~= mixer_args(*cfg, app@, stream@, debug));
        }
        Mixer { app: owned(app), stream: owned(stream), name: owned(name), args, teamspeak: srcs.teamspeak }
    }
}

} // verus!

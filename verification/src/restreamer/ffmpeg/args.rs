//! Command-line arguments of the FFmpeg processes. For a recording into a
//! file, the path of the new file (which takes the time it is made at and a
//! directory on disk) comes after them.

use vstd::prelude::*;

use crate::restreamer::ffmpeg::{fraction_text, CopyRestreamer, Mixin, MixingRestreamer, Sink, TranscodingRestreamer};
use crate::restreamer::merge::{first_where, lemma_first_where, lemma_first_where_none};
use crate::restreamer::state::{self, uuid_string, uuid_text, Output, Restream, State, Volume};
use crate::text::{decimal, push_decimal, push_str, str_eq};
use crate::weburl::opt_view;

verus! {

/// Texts of the arguments.
pub open spec fn args_view(v: Seq<String>) -> Seq<Seq<char>> {
    v.map_values(|s: String| s@)
}

/// Appends an argument.
fn push_arg(args: &mut Vec<String>, s: &str)
    ensures
        args_view(final(args)@) == args_view(old(args)@).push(s@),
{
    let mut a = String::new();
    push_str(&mut a, s);
    args.push(a);
    proof {
        assert(args_view(final(args)@) =~= args_view(old(args)@).push(s@));
    }
}

/// Arguments that make FFmpeg copy the streams as they are into the given
/// destination.
pub open spec fn copy_sink_args(sink: Sink, to: Seq<char>) -> Seq<Seq<char>> {
    match sink {
        Sink::File => seq!["-c"@, "copy"@],
        Sink::Icecast => seq![
            "-c:a"@,
            "libmp3lame"@,
            "-b:a"@,
            "64k"@,
            "-f"@,
            "mp3"@,
            "-content_type"@,
            "audio/mpeg"@,
            to,
        ],
        Sink::Rtmp => seq!["-c"@, "copy"@, "-f"@, "flv"@, to],
        Sink::Srt => seq!["-c"@, "copy"@, "-strict"@, "-2"@, "-y"@, "-f"@, "mpegts"@, to],
    }
}

/// Appends the arguments that make FFmpeg copy the streams into the given
/// destination.
fn push_copy_sink_args(args: &mut Vec<String>, sink: Sink, to: &str)
    ensures
        args_view(final(args)@) == args_view(old(args)@) + copy_sink_args(sink, to@),
{
    match sink {
        Sink::File => {
            push_arg(args, "-c");
            push_arg(args, "copy");
        },
        Sink::Icecast => {
            push_arg(args, "-c:a");
            push_arg(args, "libmp3lame");
            push_arg(args, "-b:a");
            push_arg(args, "64k");
            push_arg(args, "-f");
            push_arg(args, "mp3");
            push_arg(args, "-content_type");
            push_arg(args, "audio/mpeg");
            push_arg(args, to);
        },
        Sink::Rtmp => {
            push_arg(args, "-c");
            push_arg(args, "copy");
            push_arg(args, "-f");
            push_arg(args, "flv");
            push_arg(args, to);
        },
        Sink::Srt => {
            push_arg(args, "-c");
            push_arg(args, "copy");
            push_arg(args, "-strict");
            push_arg(args, "-2");
            push_arg(args, "-y");
            push_arg(args, "-f");
            push_arg(args, "mpegts");
            push_arg(args, to);
        },
    }
    proof {
        assert(args_view(final(args)@) =~= args_view(old(args)@) + copy_sink_args(sink, to@));
    }
}

/// A copy onto an RTMP server is muxed as FLV, the only format RTMP
/// carries: the streams are copied as they are (`-c copy`), with the `flv`
/// muxer (`-f flv`), into the destination, which comes last.
pub proof fn lemma_copy_onto_rtmp_is_flv(to: Seq<char>)
    ensures
        copy_sink_args(Sink::Rtmp, to).len() == 5,
        copy_sink_args(Sink::Rtmp, to)[0] == "-c"@,
        copy_sink_args(Sink::Rtmp, to)[1] == "copy"@,
        copy_sink_args(Sink::Rtmp, to)[2] == "-f"@,
        copy_sink_args(Sink::Rtmp, to)[3] == "flv"@,
        copy_sink_args(Sink::Rtmp, to)[4] == to,
{
}

/// Whether the arguments end with the muxer `format` (`-f format`) and the
/// destination `to`.
pub open spec fn ends_muxed(a: Seq<Seq<char>>, format: Seq<char>, to: Seq<char>) -> bool {
    &&& a.len() >= 3
    &&& a[a.len() - 3] == "-f"@
    &&& a[a.len() - 2] == format
    &&& a[a.len() - 1] == to
}

/// Every process pushes into its destination with the muxer that the
/// destination's protocol carries: FLV onto RTMP, MPEG-TS onto SRT, MP3 onto
/// Icecast (announced as `audio/mpeg`); the destination comes last. A copy
/// into a file names no destination (the file path is added when the
/// process is spawned).
pub proof fn lemma_sinks_are_muxed_for_their_protocol(to: Seq<char>, t: TranscodingRestreamer)
    ensures
        ends_muxed(copy_sink_args(Sink::Rtmp, to), "flv"@, to),
        ends_muxed(mixing_sink_args(Sink::Rtmp, to), "flv"@, to),
        ends_muxed(transcoding_args(t), "flv"@, t.to_url.url@),
        ends_muxed(copy_sink_args(Sink::Srt, to), "mpegts"@, to),
        ends_muxed(mixing_sink_args(Sink::Srt, to), "mpegts"@, to),
        copy_sink_args(Sink::Icecast, to) == mixing_sink_args(Sink::Icecast, to),
        ({
            let a = copy_sink_args(Sink::Icecast, to);
            &&& a.len() == 9
            &&& a[4] == "-f"@ && a[5] == "mp3"@
            &&& a[6] == "-content_type"@ && a[7] == "audio/mpeg"@
            &&& a[8] == to
        }),
        copy_sink_args(Sink::File, to) == seq!["-c"@, "copy"@],
{
    let tt = transcoding_args(t);
    let tail: Seq<Seq<char>> = seq!["-f"@, "flv"@, t.to_url.url@];
    assert(tt[tt.len() - 3] == tail[0]);
    assert(tt[tt.len() - 2] == tail[1]);
    assert(tt[tt.len() - 1] == tail[2]);
    let av: Seq<Seq<char>> = seq!["-map"@, "0:v"@, "-c:a"@, "libfdk_aac"@, "-c:v"@, "copy"@, "-shortest"@];
    let mr = mixing_sink_args(Sink::Rtmp, to);
    assert(mr == av + seq!["-f"@, "flv"@, to]);
    assert(mr[mr.len() - 3] == "-f"@);
    let ms = mixing_sink_args(Sink::Srt, to);
    assert(ms == av + seq!["-strict"@, "-2"@, "-y"@, "-f"@, "mpegts"@, to]);
    assert(ms[ms.len() - 3] == "-f"@);
}

impl CopyRestreamer {
    /// Arguments of the FFmpeg process: the input, then the copy into the
    /// destination.
    pub fn args(&self) -> (res: Vec<String>)
        ensures
            args_view(res@) == seq!["-i"@, self.from_url@] + copy_sink_args(
                self.to_url.sink,
                self.to_url.url@,
            ),
            self.to_url.sink == Sink::Rtmp ==> {
                let a = args_view(res@);
                &&& a.len() == 7
                &&& a[0] == "-i"@ && a[1] == self.from_url@
                &&& a[2] == "-c"@ && a[3] == "copy"@
                &&& a[4] == "-f"@ && a[5] == "flv"@
                &&& a[6] == self.to_url.url@
            },
    {
        let mut args: Vec<String> = Vec::new();
        push_arg(&mut args, "-i");
        push_arg(&mut args, self.from_url.as_str());
        push_copy_sink_args(&mut args, self.to_url.sink, self.to_url.url.as_str());
        proof {
            assert(args_view(args@) =~= seq!["-i"@, self.from_url@] + copy_sink_args(
                self.to_url.sink,
                self.to_url.url@,
            ));
            if self.to_url.sink == Sink::Rtmp {
                lemma_copy_onto_rtmp_is_flv(self.to_url.url@);
            }
        }
        args
    }
}

/// The option `name` with the given value, if there is one.
pub open spec fn opt_args(name: Seq<char>, value: Option<String>) -> Seq<Seq<char>> {
    match opt_view(value) {
        Some(v) => seq![name, v],
        None => Seq::empty(),
    }
}

/// Appends the option `name` with the given value, if there is one.
fn push_opt_args(args: &mut Vec<String>, name: &str, value: &Option<String>)
    ensures
        args_view(final(args)@) == args_view(old(args)@) + opt_args(name@, *value),
{
    match value {
        Some(v) => {
            push_arg(args, name);
            push_arg(args, v.as_str());
        },
        None => {},
    }
    proof {
        assert(args_view(final(args)@) =~= args_view(old(args)@) + opt_args(name@, *value));
    }
}

/// Arguments of a transcoding process.
pub open spec fn transcoding_args(t: TranscodingRestreamer) -> Seq<Seq<char>> {
    seq!["-i"@, t.from_url@] + opt_args("-c:v"@, t.vcodec) + opt_args("-preset"@, t.vpreset)
        + opt_args("-profile:v"@, t.vprofile) + opt_args("-c:a"@, t.acodec) + seq![
        "-f"@,
        "flv"@,
        t.to_url.url@,
    ]
}

impl TranscodingRestreamer {
    /// Arguments of the FFmpeg process: the input, the encoders and their
    /// settings, then the RTMP destination.
    pub fn args(&self) -> (res: Vec<String>)
        requires
            self.to_url.sink == Sink::Rtmp,
        ensures
            args_view(res@) == transcoding_args(*self),
    {
        let mut args: Vec<String> = Vec::new();
        push_arg(&mut args, "-i");
        push_arg(&mut args, self.from_url.as_str());
        push_opt_args(&mut args, "-c:v", &self.vcodec);
        push_opt_args(&mut args, "-preset", &self.vpreset);
        push_opt_args(&mut args, "-profile:v", &self.vprofile);
        push_opt_args(&mut args, "-c:a", &self.acodec);
        push_arg(&mut args, "-f");
        push_arg(&mut args, "flv");
        push_arg(&mut args, self.to_url.url.as_str());
        proof {
            assert(args_view(args@) =~= transcoding_args(*self));
        }
        args
    }
}

/// Property of a re-stream of having an output with the given ID.
pub open spec fn has_output(id: u128) -> spec_fn(Restream) -> bool {
    |r: Restream| first_where(r.outputs@, output_id_is(id)) is Some
}

/// Property of an output of having the given ID.
pub open spec fn output_id_is(id: u128) -> spec_fn(Output) -> bool {
    |o: Output| o.id.0 == id
}

/// The output with the given ID in the first re-stream that has one.
pub open spec fn current_output(rs: Seq<Restream>, id: u128) -> Option<Output> {
    match first_where(rs, has_output(id)) {
        Some(j) => match first_where(rs[j].outputs@, output_id_is(id)) {
            Some(k) => Some(rs[j].outputs@[k]),
            None => None,
        },
        None => None,
    }
}

/// Index of the first output with the given ID.
fn find_output_id(os: &Vec<Output>, id: u128) -> (res: Option<usize>)
    ensures
        match res {
            Some(k) => first_where(os@, output_id_is(id)) == Some(k as int),
            None => first_where(os@, output_id_is(id)) is None,
        },
{
    let mut k: usize = 0;
    while k < os.len()
        invariant
            k <= os@.len(),
            forall|m: int| 0 <= m < k ==> !output_id_is(id)(#[trigger] os@[m]),
        decreases os@.len() - k,
    {
        if os[k].id.0 == id {
            proof {
                lemma_first_where(os@, output_id_is(id), k as int);
            }
            return Some(k);
        }
        k = k + 1;
    }
    proof {
        lemma_first_where_none(os@, output_id_is(id));
    }
    None
}

impl State {
    /// The output with the given ID, as the state holds it now.
    pub fn current_output(&self, id: u128) -> (res: Option<&Output>)
        ensures
            match res {
                Some(o) => current_output(self.restreams@, id) == Some(*o),
                None => current_output(self.restreams@, id) is None,
            },
    {
        let mut j: usize = 0;
        while j < self.restreams.len()
            invariant
                j <= self.restreams@.len(),
                forall|m: int| 0 <= m < j ==> !has_output(id)(#[trigger] self.restreams@[m]),
            decreases self.restreams@.len() - j,
        {
            match find_output_id(&self.restreams[j].outputs, id) {
                Some(k) => {
                    proof {
                        lemma_first_where(self.restreams@, has_output(id), j as int);
                    }
                    return Some(&self.restreams[j].outputs[k]);
                },
                None => {},
            }
            j = j + 1;
        }
        proof {
            lemma_first_where_none(self.restreams@, has_output(id));
        }
        None
    }
}

/// Property of a mixin of the state of having the given ID.
pub open spec fn state_mixin_id_is(id: u128) -> spec_fn(state::Mixin) -> bool {
    |m: state::Mixin| m.id.0 == id
}

/// Volume that a mixed track is mixed in with: the one that the current
/// output gives it, else the one the process was made with.
pub open spec fn mixin_volume(m: Mixin, current: Option<Output>) -> Volume {
    match current {
        Some(o) => match first_where(o.mixins@, state_mixin_id_is(m.id.0)) {
            Some(k) => o.mixins@[k].volume,
            None => m.volume,
        },
        None => m.volume,
    }
}

/// Volume that the pulled live stream is mixed in with: the one of the
/// current output, else the one the process was made with.
pub open spec fn orig_volume(r: MixingRestreamer, current: Option<Output>) -> Volume {
    match current {
        Some(o) => o.volume,
        None => r.orig_volume,
    }
}

/// Arguments that read a mixed live stream: the standard input, where the
/// audio captured from TeamSpeak is fed as raw 32-bit floats, or the URL.
pub open spec fn mixin_input_args(m: Mixin) -> Seq<Seq<char>> {
    if m.url.view().scheme == "ts"@ {
        seq![
            "-thread_queue_size"@,
            "512"@,
            "-f"@,
            "f32be"@,
            "-sample_rate"@,
            "48000"@,
            "-channels"@,
            "2"@,
            "-use_wallclock_as_timestamps"@,
            "true"@,
            "-i"@,
            "pipe:0"@,
        ]
    } else {
        seq!["-i"@, m.url.view().text]
    }
}

/// Filters of a mixed live stream between its volume and its ZeroMQ
/// listener: resampling, and the delay if there is one.
pub open spec fn mixin_extra_filters(m: Mixin) -> Seq<char> {
    (if m.url.view().scheme == "ts"@ {
        "aresample=async=1,"@
    } else {
        "aresample=48000,"@
    }) + (if m.delay.millis() == 0 {
        Seq::empty()
    } else {
        "adelay=delays="@ + decimal(m.delay.millis()) + ":all=1,"@
    })
}

/// ZeroMQ listener filter on the given local port.
pub open spec fn zmq_filter(port: u16) -> Seq<char> {
    "azmq=bind_address=tcp\\\\\\://127.0.0.1\\\\\\:"@ + decimal(port as nat)
}

/// Filter chain of the pulled live stream.
pub open spec fn orig_filter(r: MixingRestreamer, volume: Volume) -> Seq<char> {
    "[0:a]volume@"@ + uuid_text(r.id) + "="@ + fraction_text(volume) + ",aresample=48000,"@
        + zmq_filter(r.orig_zmq_port) + "["@ + uuid_text(r.id) + "]"@
}

/// Filter chain of the mixed live stream that is the input number `n`.
pub open spec fn mixin_filter(n: nat, m: Mixin, volume: Volume) -> Seq<char> {
    "["@ + decimal(n) + ":a]volume@"@ + uuid_text(m.id.0) + "="@ + fraction_text(volume) + ","@
        + mixin_extra_filters(m) + zmq_filter(m.zmq_port) + "["@ + uuid_text(m.id.0) + "]"@
}

/// IDs of the first `n` mixins joined by `][`.
pub open spec fn mixin_ids(ms: Seq<Mixin>, n: nat) -> Seq<char>
    decreases n,
{
    if n == 0 {
        Seq::empty()
    } else if n == 1 {
        uuid_text(ms[0].id.0)
    } else {
        mixin_ids(ms, (n - 1) as nat) + "]["@ + uuid_text(ms[n - 1].id.0)
    }
}

/// Filter mixing the pulled live stream with all the mixed ones.
pub open spec fn amix_filter(r: MixingRestreamer) -> Seq<char> {
    "["@ + uuid_text(r.id) + "]["@ + mixin_ids(r.mixins@, r.mixins@.len()) + "]amix=inputs="@
        + decimal((r.mixins@.len() + 1) as nat) + ":duration=longest[out]"@
}

/// Filter chains of the pulled live stream and the first `n` mixed ones,
/// joined by `;`.
pub open spec fn chains(r: MixingRestreamer, current: Option<Output>, n: nat) -> Seq<char>
    decreases n,
{
    if n == 0 {
        orig_filter(r, orig_volume(r, current))
    } else {
        let m = r.mixins@[n - 1];
        chains(r, current, (n - 1) as nat) + ";"@ + mixin_filter(n, m, mixin_volume(m, current))
    }
}

/// The whole `-filter_complex` of a mixing process.
pub open spec fn filter_complex(r: MixingRestreamer, current: Option<Output>) -> Seq<char> {
    chains(r, current, r.mixins@.len()) + ";"@ + amix_filter(r)
}

/// Input arguments of the first `n` mixed live streams.
pub open spec fn mixin_inputs(ms: Seq<Mixin>, n: nat) -> Seq<Seq<char>>
    decreases n,
{
    if n == 0 {
        Seq::empty()
    } else {
        mixin_inputs(ms, (n - 1) as nat) + mixin_input_args(ms[n - 1])
    }
}

/// Arguments that make FFmpeg encode the mixed audio into the given
/// destination, with the video of the pulled live stream as it is.
pub open spec fn mixing_sink_args(sink: Sink, to: Seq<char>) -> Seq<Seq<char>> {
    let av = seq!["-map"@, "0:v"@, "-c:a"@, "libfdk_aac"@, "-c:v"@, "copy"@, "-shortest"@];
    match sink {
        Sink::File => av,
        Sink::Icecast => seq![
            "-c:a"@,
            "libmp3lame"@,
            "-b:a"@,
            "64k"@,
            "-f"@,
            "mp3"@,
            "-content_type"@,
            "audio/mpeg"@,
            to,
        ],
        Sink::Rtmp => av + seq!["-f"@, "flv"@, to],
        Sink::Srt => av + seq!["-strict"@, "-2"@, "-y"@, "-f"@, "mpegts"@, to],
    }
}

/// Arguments of a mixing process, with the volumes of the current output
/// (`debug` asks FFmpeg for a debug log).
pub open spec fn mixing_args(r: MixingRestreamer, current: Option<Output>, debug: bool) -> Seq<Seq<char>> {
    (if debug {
        seq!["-loglevel"@, "debug"@]
    } else {
        Seq::empty()
    }) + seq!["-i"@, r.from_url@] + mixin_inputs(r.mixins@, r.mixins@.len()) + seq![
        "-filter_complex"@,
        filter_complex(r, current),
        "-map"@,
        "[out]"@,
        "-max_muxing_queue_size"@,
        "50000000"@,
    ] + mixing_sink_args(r.to_url.sink, r.to_url.url@)
}

/// Index of the first mixin of the state with the given ID.
fn find_state_mixin(ms: &Vec<state::Mixin>, id: u128) -> (res: Option<usize>)
    ensures
        match res {
            Some(k) => first_where(ms@, state_mixin_id_is(id)) == Some(k as int),
            None => first_where(ms@, state_mixin_id_is(id)) is None,
        },
{
    let mut k: usize = 0;
    while k < ms.len()
        invariant
            k <= ms@.len(),
            forall|m: int| 0 <= m < k ==> !state_mixin_id_is(id)(#[trigger] ms@[m]),
        decreases ms@.len() - k,
    {
        if ms[k].id.0 == id {
            proof {
                lemma_first_where(ms@, state_mixin_id_is(id), k as int);
            }
            return Some(k);
        }
        k = k + 1;
    }
    proof {
        lemma_first_where_none(ms@, state_mixin_id_is(id));
    }
    None
}

/// Appends the ZeroMQ listener filter on the given port.
fn push_zmq_filter(out: &mut String, port: u16)
    ensures
        final(out)@ == old(out)@ + zmq_filter(port),
{
    push_str(out, "azmq=bind_address=tcp\\\\\\://127.0.0.1\\\\\\:");
    push_decimal(out, port as u64);
    proof {
        assert(final(out)@ =~= old(out)@ + zmq_filter(port));
    }
}

/// Appends the arguments of the mixing sink.
fn push_mixing_sink_args(args: &mut Vec<String>, sink: Sink, to: &str)
    ensures
        args_view(final(args)@) == args_view(old(args)@) + mixing_sink_args(sink, to@),
{
    match sink {
        Sink::Icecast => {
            push_arg(args, "-c:a");
            push_arg(args, "libmp3lame");
            push_arg(args, "-b:a");
            push_arg(args, "64k");
            push_arg(args, "-f");
            push_arg(args, "mp3");
            push_arg(args, "-content_type");
            push_arg(args, "audio/mpeg");
            push_arg(args, to);
        },
        _ => {
            push_arg(args, "-map");
            push_arg(args, "0:v");
            push_arg(args, "-c:a");
            push_arg(args, "libfdk_aac");
            push_arg(args, "-c:v");
            push_arg(args, "copy");
            push_arg(args, "-shortest");
            match sink {
                Sink::Rtmp => {
                    push_arg(args, "-f");
                    push_arg(args, "flv");
                    push_arg(args, to);
                },
                Sink::Srt => {
                    push_arg(args, "-strict");
                    push_arg(args, "-2");
                    push_arg(args, "-y");
                    push_arg(args, "-f");
                    push_arg(args, "mpegts");
                    push_arg(args, to);
                },
                _ => {},
            }
        },
    }
    proof {
        assert(args_view(final(args)@) =~= args_view(old(args)@) + mixing_sink_args(sink, to@));
    }
}

/// Appends the input arguments of a mixed live stream.
fn push_mixin_input_args(args: &mut Vec<String>, m: &Mixin)
    ensures
        args_view(final(args)@) == args_view(old(args)@) + mixin_input_args(*m),
{
    let u = m.url.url();
    if str_eq(u.scheme(), "ts") {
        push_arg(args, "-thread_queue_size");
        push_arg(args, "512");
        push_arg(args, "-f");
        push_arg(args, "f32be");
        push_arg(args, "-sample_rate");
        push_arg(args, "48000");
        push_arg(args, "-channels");
        push_arg(args, "2");
        push_arg(args, "-use_wallclock_as_timestamps");
        push_arg(args, "true");
        push_arg(args, "-i");
        push_arg(args, "pipe:0");
    } else {
        push_arg(args, "-i");
        push_arg(args, u.as_str());
    }
    proof {
        assert(args_view(final(args)@) =~= args_view(old(args)@) + mixin_input_args(*m));
    }
}

/// Filters of a mixed live stream between its volume and its ZeroMQ
/// listener.
fn mixin_extra_text(m: &Mixin) -> (res: String)
    requires
        m.delay.millis() <= i32::MAX,
    ensures
        res@ == mixin_extra_filters(*m),
{
    let mut f = String::new();
    if str_eq(m.url.url().scheme(), "ts") {
        push_str(&mut f, "aresample=async=1,");
    } else {
        push_str(&mut f, "aresample=48000,");
    }
    if !m.delay.is_zero() {
        push_str(&mut f, "adelay=delays=");
        push_decimal(&mut f, m.delay.as_millis() as u64);
        push_str(&mut f, ":all=1,");
    }
    proof {
        assert(f@ =~= mixin_extra_filters(*m));
    }
    f
}

/// Appends the filter chain of the mixed live stream number `n`.
fn push_mixin_filter(out: &mut String, n: u64, m: &Mixin, volume: Volume)
    requires
        m.delay.millis() <= i32::MAX,
    ensures
        final(out)@ == old(out)@ + mixin_filter(n as nat, *m, volume),
{
    let id = uuid_string(m.id.0);
    let v = volume.display_as_fraction();
    let extra = mixin_extra_text(m);
    let mut f = String::new();
    push_str(&mut f, "[");
    push_decimal(&mut f, n);
    push_str(&mut f, ":a]volume@");
    push_str(&mut f, id.as_str());
    push_str(&mut f, "=");
    push_str(&mut f, v.as_str());
    push_str(&mut f, ",");
    push_str(&mut f, extra.as_str());
    let ghost head = f@;
    push_zmq_filter(&mut f, m.zmq_port);
    push_str(&mut f, "[");
    push_str(&mut f, id.as_str());
    push_str(&mut f, "]");
    assert(f@ =~= head + zmq_filter(m.zmq_port) + "["@ + uuid_text(m.id.0) + "]"@);
    assert(f@ =~= mixin_filter(n as nat, *m, volume));
    push_str(out, f.as_str());
}

impl MixingRestreamer {
    /// Whether FFmpeg reads audio from its standard input: when a mixed live
    /// stream is captured from TeamSpeak.
    pub fn needs_stdin(&self) -> (res: bool)
        ensures
            res == exists|i: int| 0 <= i < self.mixins@.len() && (#[trigger] self.mixins@[i]).teamspeak is Some,
    {
        let mut i: usize = 0;
        while i < self.mixins.len()
            invariant
                i <= self.mixins@.len(),
                forall|j: int| 0 <= j < i ==> (#[trigger] self.mixins@[j]).teamspeak is None,
            decreases self.mixins@.len() - i,
        {
            if self.mixins[i].teamspeak.is_some() {
                return true;
            }
            i = i + 1;
        }
        false
    }

    /// Filter chain of the pulled live stream with the given volume.
    fn orig_filter_text(&self, volume: Volume) -> (res: String)
        ensures
            res@ == orig_filter(*self, volume),
    {
        let id = uuid_string(self.id);
        let v = volume.display_as_fraction();
        let mut fc = String::new();
        push_str(&mut fc, "[0:a]volume@");
        push_str(&mut fc, id.as_str());
        push_str(&mut fc, "=");
        push_str(&mut fc, v.as_str());
        push_str(&mut fc, ",aresample=48000,");
        let ghost head = fc@;
        push_zmq_filter(&mut fc, self.orig_zmq_port);
        push_str(&mut fc, "[");
        push_str(&mut fc, id.as_str());
        push_str(&mut fc, "]");
        assert(fc@ =~= head + zmq_filter(self.orig_zmq_port) + "["@ + uuid_text(self.id) + "]"@);
        assert(fc@ =~= orig_filter(*self, volume));
        fc
    }

    /// Filter mixing the pulled live stream with the mixed ones, whose IDs
    /// joined by `][` are `ids`.
    fn amix_text(&self, ids: &str) -> (res: String)
        requires
            ids@ == mixin_ids(self.mixins@, self.mixins@.len()),
            self.mixins@.len() < u64::MAX,
        ensures
            res@ == amix_filter(*self),
    {
        let id = uuid_string(self.id);
        let mut f = String::new();
        push_str(&mut f, "[");
        push_str(&mut f, id.as_str());
        push_str(&mut f, "][");
        push_str(&mut f, ids);
        push_str(&mut f, "]amix=inputs=");
        push_decimal(&mut f, (self.mixins.len() as u64) + 1);
        push_str(&mut f, ":duration=longest[out]");
        assert(f@ =~= amix_filter(*self));
        f
    }

    /// Appends the inputs of the mixed live streams to `args` and their
    /// filter chains to `fc`; gives their IDs joined by `][`.
    fn push_mixins(&self, current: Option<&Output>, args: &mut Vec<String>, fc: &mut String) -> (ids:
        String)
        requires
            self.mixins@.len() < u64::MAX,
            forall|i: int| 0 <= i < self.mixins@.len() ==> (#[trigger] self.mixins@[i]).delay.millis()
                <= i32::MAX,
            old(fc)@ == chains(*self, deref_current(current), 0),
        ensures
            final(fc)@ == chains(*self, deref_current(current), self.mixins@.len()),
            args_view(final(args)@) == args_view(old(args)@) + mixin_inputs(self.mixins@, self.mixins@.len()),
            ids@ == mixin_ids(self.mixins@, self.mixins@.len()),
    {
        let ghost cur = deref_current(current);
        let ghost head = args_view(args@);
        let mut ids = String::new();
        let mut i: usize = 0;
        while i < self.mixins.len()
            invariant
                i <= self.mixins@.len(),
                self.mixins@.len() < u64::MAX,
                forall|j: int| 0 <= j < self.mixins@.len() ==> (#[trigger] self.mixins@[j]).delay.millis()
                    <= i32::MAX,
                cur == deref_current(current),
                fc@ == chains(*self, cur, i as nat),
                ids@ == mixin_ids(self.mixins@, i as nat),
                args_view(args@) == head + mixin_inputs(self.mixins@, i as nat),
            decreases self.mixins@.len() - i,
        {
            let m = &self.mixins[i];
            push_mixin_input_args(args, m);
            let volume = match current {
                Some(o) => match find_state_mixin(&o.mixins, m.id.0) {
                    Some(k) => o.mixins[k].volume,
                    None => m.volume,
                },
                None => m.volume,
            };
            push_str(fc, ";");
            push_mixin_filter(fc, (i + 1) as u64, m, volume);
            if i > 0 {
                push_str(&mut ids, "][");
            }
            let mid = uuid_string(m.id.0);
            push_str(&mut ids, mid.as_str());
            proof {
                assert(fc@ =~= chains(*self, cur, (i + 1) as nat));
                assert(ids@ =~= mixin_ids(self.mixins@, (i + 1) as nat));
                assert(args_view(args@) =~= head + mixin_inputs(self.mixins@, (i + 1) as nat));
            }
            i = i + 1;
        }
        ids
    }

    /// Arguments of the FFmpeg process, with the volumes that `current`, the
    /// output as the state holds it now, gives (`debug` asks FFmpeg for a
    /// debug log): the inputs, the filters that mix their audio, then the
    /// destination.
    pub fn args(&self, current: Option<&Output>, debug: bool) -> (res: Vec<String>)
        requires
            self.mixins@.len() < u64::MAX,
            forall|i: int| 0 <= i < self.mixins@.len() ==> (#[trigger] self.mixins@[i]).delay.millis()
                <= i32::MAX,
        ensures
            args_view(res@) == mixing_args(*self, deref_current(current), debug),
    {
        let ghost cur = deref_current(current);
        let mut args: Vec<String> = Vec::new();
        if debug {
            push_arg(&mut args, "-loglevel");
            push_arg(&mut args, "debug");
        }
        let orig = match current {
            Some(o) => o.volume,
            None => self.orig_volume,
        };
        let mut fc = self.orig_filter_text(orig);
        push_arg(&mut args, "-i");
        push_arg(&mut args, self.from_url.as_str());
        let ghost head = args_view(args@);
        let ids = self.push_mixins(current, &mut args, &mut fc);
        let ghost inputs = args_view(args@);
        let amix = self.amix_text(ids.as_str());
        push_str(&mut fc, ";");
        push_str(&mut fc, amix.as_str());
        push_arg(&mut args, "-filter_complex");
        push_arg(&mut args, fc.as_str());
        push_arg(&mut args, "-map");
        push_arg(&mut args, "[out]");
        push_arg(&mut args, "-max_muxing_queue_size");
        push_arg(&mut args, "50000000");
        let ghost body = args_view(args@);
        push_mixing_sink_args(&mut args, self.to_url.sink, self.to_url.url.as_str());
        proof {
            assert(fc@ == filter_complex(*self, cur));
            assert(body =~= inputs + seq![
                "-filter_complex"@,
                filter_complex(*self, cur),
                "-map"@,
                "[out]"@,
                "-max_muxing_queue_size"@,
                "50000000"@,
            ]);
            assert(head =~= (if debug {
                seq!["-loglevel"@, "debug"@]
            } else {
                Seq::<Seq<char>>::empty()
            }) + seq!["-i"@, self.from_url@]);
            assert(args_view(args@) =~= mixing_args(*self, cur, debug));
        }
        args
    }
}

/// The output behind an optional reference.
pub open spec fn deref_current(current: Option<&Output>) -> Option<Output> {
    match current {
        Some(o) => Some(*o),
        None => None,
    }
}

} // verus!

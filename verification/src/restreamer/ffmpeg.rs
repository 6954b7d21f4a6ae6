//! Decisions about the FFmpeg processes that perform re-streaming: which
//! process each input endpoint and each output needs, and when a running
//! process must be restarted.

use vstd::prelude::*;

mod args;
mod mixing;
mod pool;
mod restart;
mod run;
mod settled;
mod status;

pub use self::args::{
    amix_filter, args_view, chains, copy_sink_args, current_output, deref_current,
    filter_complex, has_output, mixin_extra_filters, mixin_filter, mixin_ids, mixin_input_args,
    mixin_inputs, mixin_volume, mixing_args, mixing_sink_args, opt_args, orig_filter,
    orig_volume, output_id_is, state_mixin_id_is, transcoding_args, zmq_filter,
};
pub use self::mixing::{
    absolute, deref_opt, dst_target, has_mixin_id, mixin_by_id, mixin_made, mixin_teamspeak,
    mixing_made, opt_label, opt_teamspeak_view, output_kind, output_ports, prev_mixins,
    query_value, robot_name, teamspeak_host, teamspeak_name, teamspeak_of, teamspeak_view,
};
pub use self::pool::{
    demands, endpoint_needs, endpoint_points, entry_made, entry_of, found_at, ids_unique,
    input_points, inputs_points, kind_of, last_active, mains_have_rtmp, output_points,
    point_active, point_id, point_ports, points, pool_after, ports_before, remaining,
    restream_points, running_id_is, settled, went_through, Point, Pool, Running,
};
pub use self::settled::{active_ids_unique, kinds_alike, lemma_apply_twice, mixing_alike};
pub use self::run::{
    lemma_online_only_while_running, run_next, RunEvent, RunPhase, ONLINE_AFTER_SECS,
    RESTART_PAUSE_SECS,
};
pub use self::status::{
    endpoint_renewed, endpoints_renewed, first_endpoint, has_endpoint, input_has, input_renewed,
    inputs_have, inputs_renewed, output_has_id, output_renewed, restream_renewed,
    restreams_renewed, takes_status, taking,
};
pub use self::restart::{
    fraction_text, kind_restarts, kind_tuned, kind_tunes, mixin_restarts, mixin_tunes,
    mixin_with_volume, mixing_restarts, mixing_tuned, mixing_tunes, same_transcoding, tune_text,
    VolumeTune,
};

use crate::restreamer::dvr::{file_url, record_path, Storage};
use crate::restreamer::merge::{first_where, lemma_first_where, lemma_first_where_none};
use crate::restreamer::state::{
    online, ready_to_serve, rtmp_url_text, serves_rtmp, uuid_string, uuid_text, Delay, Input,
    InputEndpoint, InputEndpointKind, InputSrc, Label, MixinId, MixinSrcUrl, Output, RestreamKey,
    Volume,
};
use crate::text::{decimal, push_decimal, push_str, str_eq};
use crate::weburl::{opt_view, WebUrlView};

verus! {

/// First port that the `azmq` filters of FFmpeg listen on.
pub const FIRST_ZMQ_PORT: u16 = 20000;

/// The port following `p`: one more, wrapping around to the first one.
pub open spec fn next_zmq_port(p: u16) -> u16 {
    if p < u16::MAX {
        (p + 1) as u16
    } else {
        FIRST_ZMQ_PORT
    }
}

/// The port that `n` takes of new ports leave as the latest one, from `p`.
pub open spec fn ports_after(p: u16, n: nat) -> u16
    decreases n,
{
    if n == 0 {
        p
    } else {
        next_zmq_port(ports_after(p, (n - 1) as nat))
    }
}

/// Takes a new port for a ZeroMQ listener of FFmpeg from the latest one
/// taken: gives the latest port out and advances it, wrapping around to
/// 20000 after the last port.
pub fn new_unique_zmq_port(latest: &mut u16) -> (res: u16)
    ensures
        res == *old(latest),
        *final(latest) == next_zmq_port(*old(latest)),
        FIRST_ZMQ_PORT <= *old(latest) ==> FIRST_ZMQ_PORT <= res && FIRST_ZMQ_PORT <= *final(latest),
{
    let p = *latest;
    *latest = match p.checked_add(1) {
        Some(n) => n,
        None => FIRST_ZMQ_PORT,
    };
    p
}

/// Ports taken from a latest port of at least `FIRST_ZMQ_PORT` stay at
/// least `FIRST_ZMQ_PORT`, however many are taken: starting from it, every
/// port given out lies in `FIRST_ZMQ_PORT..=u16::MAX`.
pub proof fn lemma_ports_stay_in_range(p: u16, n: nat)
    requires
        FIRST_ZMQ_PORT <= p,
    ensures
        FIRST_ZMQ_PORT <= ports_after(p, n),
    decreases n,
{
    if n > 0 {
        lemma_ports_stay_in_range(p, (n - 1) as nat);
    }
}

/// Ports given out one after another differ.
pub proof fn lemma_ports_differ(p: u16)
    ensures
        next_zmq_port(p) != p,
{
}

/// How FFmpeg writes into a destination.
#[derive(Clone, Copy, Debug, PartialEq, Eq, Structural)]
pub enum Sink {
    /// Into a new FLV file of a recording.
    File,
    /// Onto an Icecast server.
    Icecast,
    /// Onto an RTMP server.
    Rtmp,
    /// Onto an SRT server.
    Srt,
}

/// How FFmpeg writes into a destination URL of the given scheme.
pub open spec fn sink_of(scheme: Seq<char>) -> Sink {
    if scheme == "file"@ {
        Sink::File
    } else if scheme == "icecast"@ {
        Sink::Icecast
    } else if scheme == "srt"@ {
        Sink::Srt
    } else {
        Sink::Rtmp
    }
}

/// Destination of an FFmpeg process.
#[derive(Debug)]
pub struct Target {
    /// Text of the destination URL.
    pub url: String,
    /// How FFmpeg writes into it.
    pub sink: Sink,
}

/// Process re-streaming a live stream as it is.
#[derive(Debug)]
pub struct CopyRestreamer {
    /// ID of the element of the state that the process is for.
    pub id: u128,
    /// Text of the URL to pull the live stream from.
    pub from_url: String,
    /// Destination to publish the live stream onto.
    pub to_url: Target,
}

/// Process re-streaming a live stream transcoded.
#[derive(Debug)]
pub struct TranscodingRestreamer {
    /// ID of the element of the state that the process is for.
    pub id: u128,
    /// Text of the URL to pull the live stream from.
    pub from_url: String,
    /// Destination to publish the transcoded live stream onto.
    pub to_url: Target,
    /// Video encoder.
    pub vcodec: Option<String>,
    /// Preset of the video encoder.
    pub vpreset: Option<String>,
    /// Profile of the video encoder.
    pub vprofile: Option<String>,
    /// Audio encoder.
    pub acodec: Option<String>,
}

/// TeamSpeak channel that a mixin captures audio from.
#[derive(Debug)]
pub struct TeamspeakSource {
    /// Host of the server, with its port if the URL gives one.
    pub host: String,
    /// Channel to join.
    pub channel: String,
    /// Name to join the channel with.
    pub name: String,
}

/// Additional live stream mixed in by a [`MixingRestreamer`].
#[derive(Debug)]
pub struct Mixin {
    /// ID of the mixin of the state.
    pub id: MixinId,
    /// URL to pull the live stream from.
    pub url: MixinSrcUrl,
    /// Delay to mix it in with.
    pub delay: Delay,
    /// Volume to mix its audio in with.
    pub volume: Volume,
    /// Port of the `azmq` filter tuning its volume.
    pub zmq_port: u16,
    /// TeamSpeak channel whose audio is fed into the standard input of
    /// FFmpeg, if the URL is a TeamSpeak one.
    pub teamspeak: Option<TeamspeakSource>,
}

/// Process mixing a live stream with additional ones and re-streaming the
/// result.
#[derive(Debug)]
pub struct MixingRestreamer {
    /// ID of the output of the state that the process is for.
    pub id: u128,
    /// Text of the URL to pull the live stream from.
    pub from_url: String,
    /// Destination to publish the mixed live stream onto.
    pub to_url: Target,
    /// Volume to mix the audio of the pulled live stream with.
    pub orig_volume: Volume,
    /// Port of the `azmq` filter tuning the volume of the pulled live
    /// stream.
    pub orig_zmq_port: u16,
    /// Live streams mixed in.
    pub mixins: Vec<Mixin>,
}

/// Kind of an FFmpeg re-streaming process.
#[derive(Debug)]
pub enum RestreamerKind {
    /// As it is.
    Copy(CopyRestreamer),
    /// Transcoded.
    Transcoding(TranscodingRestreamer),
    /// Mixed with additional live streams.
    Mixing(MixingRestreamer),
}

/// ID of the element of the state that a process of the given kind is for.
pub open spec fn kind_id(k: RestreamerKind) -> u128 {
    match k {
        RestreamerKind::Copy(c) => c.id,
        RestreamerKind::Transcoding(t) => t.id,
        RestreamerKind::Mixing(m) => m.id,
    }
}

impl RestreamerKind {
    /// ID of the element of the state that this process is for.
    pub fn id(&self) -> (res: u128)
        ensures
            res == kind_id(*self),
    {
        match self {
            RestreamerKind::Copy(c) => c.id,
            RestreamerKind::Transcoding(t) => t.id,
            RestreamerKind::Mixing(m) => m.id,
        }
    }
}

/// Property of an input of having an online RTMP endpoint.
pub open spec fn online_input() -> spec_fn(Input) -> bool {
    |i: Input| online(i.endpoints@)
}

/// Index of the first of the inputs with an online RTMP endpoint.
fn find_online_input(is: &Vec<Input>) -> (res: Option<usize>)
    ensures
        match res {
            Some(j) => first_where(is@, online_input()) == Some(j as int),
            None => first_where(is@, online_input()) is None,
        },
{
    let mut k: usize = 0;
    while k < is.len()
        invariant
            k <= is@.len(),
            forall|m: int| 0 <= m < k ==> !online_input()(#[trigger] is@[m]),
        decreases is@.len() - k,
    {
        if serves_rtmp(&is[k].endpoints) {
            proof {
                lemma_first_where(is@, online_input(), k as int);
            }
            return Some(k);
        }
        k = k + 1;
    }
    proof {
        lemma_first_where_none(is@, online_input());
    }
    None
}

/// Whether the kind is a copy of the given ID from the URL `from` onto the
/// RTMP URL `to`.
pub open spec fn copies(res: Option<RestreamerKind>, id: u128, from: Seq<char>, to: Seq<char>) -> bool {
    &&& res matches Some(RestreamerKind::Copy(c))
    &&& c.id == id
    &&& c.from_url@ == from
    &&& c.to_url.url@ == to
    &&& c.to_url.sink == Sink::Rtmp
}

/// The process that an endpoint of an input needs: none for a disabled
/// input; for an RTMP endpoint, a copy onto it from the remote source, or
/// from the first failover input with an online RTMP endpoint (none if it
/// pulls nothing or no failover input is online); for an HLS endpoint, once
/// the input is ready to serve, a transcoding of its RTMP endpoint onto it.
pub open spec fn input_kind(
    res: Option<RestreamerKind>,
    input: Input,
    endpoint: InputEndpoint,
    key: Seq<char>,
) -> bool {
    let to = rtmp_url_text(endpoint.kind, key, input.key.view());
    if !input.enabled {
        res is None
    } else {
        match endpoint.kind {
            InputEndpointKind::Rtmp => match input.src {
                None => res is None,
                Some(InputSrc::Remote(r)) => copies(res, endpoint.id.0, r.url.view().text, to),
                Some(InputSrc::Failover(f)) => match first_where(f.inputs@, online_input()) {
                    None => res is None,
                    Some(k) => copies(
                        res,
                        endpoint.id.0,
                        rtmp_url_text(InputEndpointKind::Rtmp, key, f.inputs@[k].key.view()),
                        to,
                    ),
                },
            },
            InputEndpointKind::Hls => if !ready_to_serve(input) {
                res is None
            } else {
                &&& res matches Some(RestreamerKind::Transcoding(t))
                &&& t.id == endpoint.id.0
                &&& t.from_url@ == rtmp_url_text(InputEndpointKind::Rtmp, key, input.key.view())
                &&& t.to_url.url@ == to
                &&& t.to_url.sink == Sink::Rtmp
                &&& opt_view(t.vcodec) == Some("libx264"@)
                &&& opt_view(t.vprofile) == Some("baseline"@)
                &&& opt_view(t.vpreset) == Some("superfast"@)
                &&& opt_view(t.acodec) == Some("libfdk_aac"@)
            },
        }
    }
}

/// An owned copy of the text.
fn owned(s: &str) -> (res: String)
    ensures
        res@ == s@,
{
    s.to_owned()
}

impl RestreamerKind {
    /// The process that the given endpoint of the given input of the
    /// re-stream with the given key needs, if any.
    pub fn from_input(input: &Input, endpoint: &InputEndpoint, key: &RestreamKey) -> (res: Option<
        RestreamerKind,
    >)
        ensures
            input_kind(res, *input, *endpoint, key.view()),
    {
        if !input.enabled {
            return None;
        }
        let to = endpoint.kind.rtmp_url_text(key, &input.key);
        match endpoint.kind {
            InputEndpointKind::Rtmp => {
                let from_url = match &input.src {
                    None => {
                        return None;
                    },
                    Some(InputSrc::Remote(r)) => owned(r.url.url().as_str()),
                    Some(InputSrc::Failover(f)) => match find_online_input(&f.inputs) {
                        None => {
                            return None;
                        },
                        Some(k) => InputEndpointKind::Rtmp.rtmp_url_text(key, &f.inputs[k].key),
                    },
                };
                Some(
                    RestreamerKind::Copy(
                        CopyRestreamer {
                            id: endpoint.id.0,
                            from_url,
                            to_url: Target { url: to, sink: Sink::Rtmp },
                        },
                    ),
                )
            },
            InputEndpointKind::Hls => {
                if !input.is_ready_to_serve() {
                    return None;
                }
                Some(
                    RestreamerKind::Transcoding(
                        TranscodingRestreamer {
                            id: endpoint.id.0,
                            from_url: InputEndpointKind::Rtmp.rtmp_url_text(key, &input.key),
                            to_url: Target { url: to, sink: Sink::Rtmp },
                            vcodec: Some(owned("libx264")),
                            vpreset: Some(owned("superfast")),
                            vprofile: Some(owned("baseline")),
                            acodec: Some(owned("libfdk_aac")),
                        },
                    ),
                )
            },
        }
    }
}

} // verus!

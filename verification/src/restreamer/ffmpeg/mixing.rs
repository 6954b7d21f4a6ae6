//! Processes that the outputs of a re-stream need: a copy of the live stream
//! onto the destination, or a mix of it with the output's mixins; and when a
//! running process must be restarted.

use vstd::prelude::*;

use crate::restreamer::dvr::{file_url, record_path, trim_leading_slashes, trim_slashes, Storage};
use crate::restreamer::ffmpeg::{
    new_unique_zmq_port, next_zmq_port, ports_after, sink_of, CopyRestreamer, Mixin,
    MixingRestreamer, RestreamerKind, Sink, Target, TeamspeakSource,
};
use crate::restreamer::merge::{first_where, lemma_first_where, lemma_first_where_none};
use crate::restreamer::state::{self, label_view, uuid_string, uuid_text, Label, Output};
use crate::text::{decimal, push_decimal, push_str, str_eq};
use crate::weburl::WebUrlView;

verus! {

/// Text of an optional label behind a reference.
pub open spec fn opt_label(l: Option<&Label>) -> Option<Seq<char>> {
    match l {
        Some(l) => Some(l.view()),
        None => None,
    }
}

/// The value behind an optional reference.
pub open spec fn deref_opt<T>(o: Option<&T>) -> Option<T> {
    match o {
        Some(x) => Some(*x),
        None => None,
    }
}

/// The destination that FFmpeg publishes the live stream of an output onto:
/// for a `file` URL, the `file` URL of the recording under the root `root`;
/// for any other URL, the URL itself.
pub open spec fn dst_target(t: Target, output: Output, root: Seq<char>) -> bool {
    let u = output.dst.view();
    if u.scheme == "file"@ {
        &&& file_url(record_path(root, output.id.0, u.path)) == Some(t.url@)
        &&& t.sink == Sink::File
    } else {
        &&& t.url@ == u.text
        &&& t.sink == sink_of(u.scheme)
    }
}

/// Whether a root path is absolute.
pub open spec fn absolute(root: Seq<char>) -> bool {
    root.len() > 0 && root[0] == '/'
}

impl RestreamerKind {
    /// The destination that FFmpeg publishes the live stream of the given
    /// output onto, with recordings kept in the given storage.
    pub fn dst_url(output: &Output, storage: &Storage) -> (res: Target)
        requires
            absolute(storage.root_path@),
        ensures
            dst_target(res, *output, storage.root_path@),
    {
        let u = output.dst.url();
        let scheme = u.scheme();
        if str_eq(scheme, "file") {
            match storage.file_url(output) {
                Some(url) => Target { url, sink: Sink::File },
                None => {
                    proof {
                        assert(false);
                    }
                    Target { url: String::new(), sink: Sink::File }
                },
            }
        } else {
            let mut url = String::new();
            push_str(&mut url, u.as_str());
            let sink = if str_eq(scheme, "icecast") {
                Sink::Icecast
            } else if str_eq(scheme, "srt") {
                Sink::Srt
            } else {
                Sink::Rtmp
            };
            Target { url, sink }
        }
    }
}

/// Value of the first pair of the query with the given name.
pub open spec fn query_value(q: Seq<(Seq<char>, Seq<char>)>, name: Seq<char>) -> Option<Seq<char>>
    decreases q.len(),
{
    if q.len() == 0 {
        None
    } else if q[0].0 == name {
        Some(q[0].1)
    } else {
        query_value(q.drop_first(), name)
    }
}

/// Name that a robot joins a TeamSpeak channel with: a robot face and the
/// given text.
pub open spec fn robot_name(s: Seq<char>) -> Seq<char> {
    "\u{1F916} "@ + s
}

/// Host of the TeamSpeak server that a URL points to, with its port if the
/// URL gives one.
pub open spec fn teamspeak_host(u: WebUrlView) -> Option<Seq<char>> {
    match u.host {
        None => None,
        Some(h) => Some(
            match u.port {
                Some(p) => h + ":"@ + decimal(p as nat),
                None => h,
            },
        ),
    }
}

/// Name to join a TeamSpeak channel with: the `name` of the query if it has
/// one, else the label of the output, else the ID of the mixin, behind a
/// robot face.
pub open spec fn teamspeak_name(u: WebUrlView, label: Option<Seq<char>>, id: u128) -> Seq<char> {
    match query_value(u.query, "name"@) {
        Some(n) => n,
        None => match label {
            Some(l) => robot_name(l),
            None => robot_name(uuid_text(id)),
        },
    }
}

/// Texts of a TeamSpeak source: host, channel and name.
pub open spec fn teamspeak_view(t: TeamspeakSource) -> (Seq<char>, Seq<char>, Seq<char>) {
    (t.host@, t.channel@, t.name@)
}

/// Texts of an optional TeamSpeak source.
pub open spec fn opt_teamspeak_view(t: Option<TeamspeakSource>) -> Option<
    (Seq<char>, Seq<char>, Seq<char>),
> {
    match t {
        Some(t) => Some(teamspeak_view(t)),
        None => None,
    }
}

/// The TeamSpeak source that a mixin of the given ID and source URL
/// captures, for an output of the given label: none without a host; the
/// channel is the path without its leading slashes.
pub open spec fn teamspeak_of(u: WebUrlView, label: Option<Seq<char>>, id: u128) -> Option<
    (Seq<char>, Seq<char>, Seq<char>),
> {
    match teamspeak_host(u) {
        None => None,
        Some(h) => Some((h, trim_slashes(u.path), teamspeak_name(u, label, id))),
    }
}

/// The TeamSpeak source of a mixin of the state made anew (`prev` is the
/// running mixin of the same ID, if any): none unless its URL is a
/// TeamSpeak one; the source of `prev`, if it has one; else the one that
/// the URL gives.
pub open spec fn mixin_teamspeak(s: state::Mixin, label: Option<Seq<char>>, prev: Option<Mixin>) -> Option<
    (Seq<char>, Seq<char>, Seq<char>),
> {
    if s.src.view().scheme != "ts"@ {
        None
    } else {
        match prev {
            Some(p) => match p.teamspeak {
                Some(t) => Some(teamspeak_view(t)),
                None => teamspeak_of(s.src.view(), label, s.id.0),
            },
            None => teamspeak_of(s.src.view(), label, s.id.0),
        }
    }
}

/// Whether `m` is the mixin of a process made of the mixin `s` of the state
/// with the port `port`.
pub open spec fn mixin_made(
    m: Mixin,
    s: state::Mixin,
    label: Option<Seq<char>>,
    prev: Option<Mixin>,
    port: u16,
) -> bool {
    &&& m.id == s.id
    &&& m.url.view() == s.src.view()
    &&& m.delay == s.delay
    &&& m.volume == s.volume
    &&& m.zmq_port == port
    &&& opt_teamspeak_view(m.teamspeak) == mixin_teamspeak(s, label, prev)
}

/// Value of the first pair of the query with the given name.
fn find_query_value(q: &Vec<(String, String)>, name: &str) -> (res: Option<String>)
    ensures
        match res {
            Some(v) => query_value(q@.map_values(|p: (String, String)| (p.0@, p.1@)), name@)
                == Some(v@),
            None => query_value(q@.map_values(|p: (String, String)| (p.0@, p.1@)), name@) is None,
        },
{
    let ghost all = q@.map_values(|p: (String, String)| (p.0@, p.1@));
    let mut k: usize = 0;
    assert(all.skip(0) =~= all);
    while k < q.len()
        invariant
            k <= q@.len(),
            all == q@.map_values(|p: (String, String)| (p.0@, p.1@)),
            query_value(all, name@) == query_value(all.skip(k as int), name@),
        decreases q@.len() - k,
    {
        let (key, value) = &q[k];
        assert(all.skip(k as int)[0] == (key@, value@));
        if str_eq(key.as_str(), name) {
            let mut v = String::new();
            push_str(&mut v, value.as_str());
            return Some(v);
        }
        assert(all.skip(k as int).drop_first() =~= all.skip(k + 1));
        k = k + 1;
    }
    None
}

/// A copy of a TeamSpeak source.
fn copy_teamspeak(t: &TeamspeakSource) -> (res: TeamspeakSource)
    ensures
        teamspeak_view(res) == teamspeak_view(*t),
{
    let mut host = String::new();
    push_str(&mut host, t.host.as_str());
    let mut channel = String::new();
    push_str(&mut channel, t.channel.as_str());
    let mut name = String::new();
    push_str(&mut name, t.name.as_str());
    TeamspeakSource { host, channel, name }
}

/// The TeamSpeak source that the given URL gives.
fn teamspeak_source(u: &crate::weburl::WebUrl, label: Option<&Label>, id: u128) -> (res: Option<
    TeamspeakSource,
>)
    ensures
        opt_teamspeak_view(res) == teamspeak_of(u@, opt_label(label), id),
{
    let h = match u.host_str() {
        Some(h) => h,
        None => {
            return None;
        },
    };
    let mut host = String::new();
    push_str(&mut host, h);
    match u.port() {
        Some(p) => {
            push_str(&mut host, ":");
            push_decimal(&mut host, p as u64);
        },
        None => {},
    }
    let channel = trim_leading_slashes(u.path());
    let name = match find_query_value(u.query_pairs(), "name") {
        Some(n) => n,
        None => {
            let mut n = String::new();
            push_str(&mut n, "\u{1F916} ");
            match label {
                Some(l) => push_str(&mut n, l.as_str()),
                None => {
                    let s = uuid_string(id);
                    push_str(&mut n, s.as_str());
                },
            }
            n
        },
    };
    Some(TeamspeakSource { host, channel, name })
}

impl Mixin {
    /// The mixin of a process made of the given mixin of the state, for an
    /// output of the given label, taking a new port from `latest`. The
    /// running mixin `prev` of the same ID, if any, hands its TeamSpeak
    /// source over.
    pub fn new(s: &state::Mixin, label: Option<&Label>, prev: Option<&Mixin>, latest: &mut u16) -> (res: Mixin)
        ensures
            mixin_made(res, *s, opt_label(label), deref_opt(prev), *old(latest)),
            *final(latest) == next_zmq_port(*old(latest)),
    {
        let u = s.src.url();
        let teamspeak = if !str_eq(u.scheme(), "ts") {
            None
        } else {
            match prev {
                Some(p) => match &p.teamspeak {
                    Some(t) => Some(copy_teamspeak(t)),
                    None => teamspeak_source(u, label, s.id.0),
                },
                None => teamspeak_source(u, label, s.id.0),
            }
        };
        Mixin {
            id: s.id,
            url: s.src.clone(),
            delay: s.delay,
            volume: s.volume,
            zmq_port: new_unique_zmq_port(latest),
            teamspeak,
        }
    }

    /// Whether the process must be restarted for this mixin to become the
    /// `actual` one: when the URL or the delay differ.
    pub fn needs_restart(&self, actual: &Mixin) -> (res: bool)
        ensures
            res == (self.url.view().text != actual.url.view().text || self.delay != actual.delay),
    {
        !self.url.same(&actual.url) || self.delay != actual.delay
    }
}

/// Mixins of the process of the given kind, if it mixes.
pub open spec fn prev_mixins(prev: Option<RestreamerKind>) -> Seq<Mixin> {
    match prev {
        Some(RestreamerKind::Mixing(m)) => m.mixins@,
        _ => Seq::empty(),
    }
}

/// Property of a mixin of having the given ID.
pub open spec fn has_mixin_id(id: u128) -> spec_fn(Mixin) -> bool {
    |m: Mixin| m.id.0 == id
}

/// The first of the mixins with the given ID, if any.
pub open spec fn mixin_by_id(ms: Seq<Mixin>, id: u128) -> Option<Mixin> {
    match first_where(ms, has_mixin_id(id)) {
        Some(k) => Some(ms[k]),
        None => None,
    }
}

/// Index of the first of the mixins with the given ID, if any.
fn find_mixin(ms: &Vec<Mixin>, id: u128) -> (res: Option<usize>)
    ensures
        match res {
            Some(k) => first_where(ms@, has_mixin_id(id)) == Some(k as int),
            None => first_where(ms@, has_mixin_id(id)) is None,
        },
{
    let mut k: usize = 0;
    while k < ms.len()
        invariant
            k <= ms@.len(),
            forall|m: int| 0 <= m < k ==> !has_mixin_id(id)(#[trigger] ms@[m]),
        decreases ms@.len() - k,
    {
        if ms[k].id.0 == id {
            proof {
                lemma_first_where(ms@, has_mixin_id(id), k as int);
            }
            return Some(k);
        }
        k = k + 1;
    }
    proof {
        lemma_first_where_none(ms@, has_mixin_id(id));
    }
    None
}

/// Whether `r` is the mixing process made of the given output (with its
/// live stream pulled from `from`, its recordings under `root`, `prev` the
/// running process of the output and `port` the latest port taken): the
/// output's own audio takes the next port, and each mixin the following
/// ones in order.
pub open spec fn mixing_made(
    r: MixingRestreamer,
    output: Output,
    from: Seq<char>,
    root: Seq<char>,
    prev: Option<RestreamerKind>,
    port: u16,
) -> bool {
    &&& r.id == output.id.0
    &&& r.from_url@ == from
    &&& dst_target(r.to_url, output, root)
    &&& r.orig_volume == output.volume
    &&& r.orig_zmq_port == port
    &&& r.mixins@.len() == output.mixins@.len()
    &&& forall|i: int|
        0 <= i < r.mixins@.len() ==> mixin_made(
            #[trigger] r.mixins@[i],
            output.mixins@[i],
            label_view(output.label),
            mixin_by_id(prev_mixins(prev), output.mixins@[i].id.0),
            ports_after(port, (i + 1) as nat),
        )
}

impl MixingRestreamer {
    /// The process mixing the live stream pulled from `from_url` with the
    /// mixins of the given output, taking new ports from `latest`; `prev`,
    /// the running process of the output, hands the TeamSpeak sources of
    /// its mixins over.
    pub fn new(
        output: &Output,
        from_url: &str,
        storage: &Storage,
        prev: Option<&RestreamerKind>,
        latest: &mut u16,
    ) -> (res: MixingRestreamer)
        requires
            absolute(storage.root_path@),
        ensures
            mixing_made(res, *output, from_url@, storage.root_path@, deref_opt(prev), *old(latest)),
            *final(latest) == ports_after(*old(latest), (output.mixins@.len() + 1) as nat),
    {
        let ghost start = *latest;
        let prevs: Option<&Vec<Mixin>> = match prev {
            Some(RestreamerKind::Mixing(m)) => Some(&m.mixins),
            _ => None,
        };
        let mut from = String::new();
        push_str(&mut from, from_url);
        let to_url = RestreamerKind::dst_url(output, storage);
        let orig_zmq_port = new_unique_zmq_port(latest);
        proof {
            reveal_with_fuel(ports_after, 2);
        }
        let mut mixins: Vec<Mixin> = Vec::new();
        let mut i: usize = 0;
        while i < output.mixins.len()
            invariant
                i <= output.mixins@.len(),
                mixins@.len() == i,
                *latest == ports_after(start, (i + 1) as nat),
                match prevs {
                    Some(ps) => ps@ == prev_mixins(deref_opt(prev)),
                    None => prev_mixins(deref_opt(prev)) == Seq::<Mixin>::empty(),
                },
                forall|j: int|
                    0 <= j < i ==> mixin_made(
                        #[trigger] mixins@[j],
                        output.mixins@[j],
                        label_view(output.label),
                        mixin_by_id(prev_mixins(deref_opt(prev)), output.mixins@[j].id.0),
                        ports_after(start, (j + 1) as nat),
                    ),
            decreases output.mixins@.len() - i,
        {
            let s = &output.mixins[i];
            let p: Option<&Mixin> = match prevs {
                Some(ps) => match find_mixin(ps, s.id.0) {
                    Some(k) => Some(&ps[k]),
                    None => None,
                },
                None => None,
            };
            proof {
                if prevs is None {
                    assert(first_where(Seq::<Mixin>::empty(), has_mixin_id(s.id.0)) is None) by {
                        lemma_first_where_none(Seq::<Mixin>::empty(), has_mixin_id(s.id.0));
                    }
                }
            }
            let m = Mixin::new(s, output.label.as_ref(), p, latest);
            mixins.push(m);
            i = i + 1;
        }
        MixingRestreamer {
            id: output.id.0,
            from_url: from,
            to_url,
            orig_volume: output.volume,
            orig_zmq_port,
            mixins,
        }
    }
}

/// The process that an output needs, pulling its live stream from `from`
/// (`prev` is its running process, `port` the latest port taken): none for
/// a disabled output; a copy onto its destination when it has no mixins;
/// else a mix of it with its mixins.
pub open spec fn output_kind(
    res: Option<RestreamerKind>,
    output: Output,
    from: Seq<char>,
    root: Seq<char>,
    prev: Option<RestreamerKind>,
    port: u16,
) -> bool {
    if !output.enabled {
        res is None
    } else if output.mixins@.len() == 0 {
        &&& res matches Some(RestreamerKind::Copy(c))
        &&& c.id == output.id.0
        &&& c.from_url@ == from
        &&& dst_target(c.to_url, output, root)
    } else {
        &&& res matches Some(RestreamerKind::Mixing(m))
        &&& mixing_made(m, output, from, root, prev, port)
    }
}

/// How many ports the process of an output takes.
pub open spec fn output_ports(output: Output) -> nat {
    if !output.enabled || output.mixins@.len() == 0 {
        0
    } else {
        (output.mixins@.len() + 1) as nat
    }
}

impl RestreamerKind {
    /// The process that the given output needs, pulling its live stream from
    /// `from_url`, with recordings kept in `storage`; `prev` is the running
    /// process of the output, if any, and new ports come from `latest`.
    pub fn from_output(
        output: &Output,
        from_url: &str,
        storage: &Storage,
        prev: Option<&RestreamerKind>,
        latest: &mut u16,
    ) -> (res: Option<RestreamerKind>)
        requires
            absolute(storage.root_path@),
        ensures
            output_kind(res, *output, from_url@, storage.root_path@, deref_opt(prev), *old(latest)),
            *final(latest) == ports_after(*old(latest), output_ports(*output)),
    {
        if !output.enabled {
            return None;
        }
        if output.mixins.len() == 0 {
            let mut from = String::new();
            push_str(&mut from, from_url);
            let to_url = RestreamerKind::dst_url(output, storage);
            return Some(RestreamerKind::Copy(CopyRestreamer { id: output.id.0, from_url: from, to_url }));
        }
        Some(RestreamerKind::Mixing(MixingRestreamer::new(output, from_url, storage, prev, latest)))
    }
}

} // verus!

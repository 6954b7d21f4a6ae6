//! Decisions on the HTTP callbacks of SRS: which clients may connect,
//! publish and play, and how the state of the endpoints follows them.

use vstd::prelude::*;

use crate::restreamer::merge::{first_where, lemma_first_where, lemma_first_where_none};
use crate::restreamer::state::{
    input_changed, only_at, ClientId, Input, InputEndpoint, InputEndpointKind, InputSrc, Restream,
    State, Status,
};
use crate::text::str_eq;

verus! {

/// Event that SRS reports on.
#[derive(Clone, Copy, Debug, PartialEq, Eq, Structural)]
pub enum Event {
    /// A client connects to an `app`.
    OnConnect,
    /// A client publishes a stream.
    OnPublish,
    /// A client stops publishing its stream.
    OnUnpublish,
    /// A client plays a stream.
    OnPlay,
    /// A client stops playing a stream.
    OnStop,
    /// A client requests a stream over HLS.
    OnHls,
}

/// Request that SRS performs on an event.
#[derive(Debug)]
pub struct Request {
    /// Event reported on.
    pub action: Event,
    /// ID of the SRS client that the event is about.
    pub client_id: ClientId,
    /// Whether the client's IP address is a loopback one.
    pub ip_is_loopback: bool,
    /// SRS `app` of the stream: the key of a re-stream.
    pub app: String,
    /// SRS `stream`: the key of an input, if any.
    pub stream: Option<String>,
    /// SRS `vhost` of the stream.
    pub vhost: String,
}

/// Refusal of a callback.
#[derive(Clone, Copy, Debug, PartialEq, Eq, Structural)]
pub enum CallbackError {
    /// No (enabled) re-stream has the requested `app` as its key.
    AppNotFound,
    /// No (enabled) input has the requested `stream` as its key, or it has
    /// no endpoint of the requested kind.
    StreamNotFound,
    /// The input has no endpoint for the requested `vhost`.
    VhostNotAllowed,
    /// The stream may be published from the local machine alone.
    OnlyLocal,
    /// The endpoint does not serve a live stream yet.
    NotReady,
}

/// What a callback does to an endpoint of the input that it is about.
#[derive(Clone, Copy, Debug, PartialEq, Eq, Structural)]
pub enum EndpointOp {
    /// A client starts publishing; `local` tells whether it connects from
    /// the local machine.
    Publish { client: ClientId, local: bool },
    /// The publisher stops publishing.
    Unpublish,
    /// A client starts playing.
    Play { client: ClientId },
    /// A client stops playing.
    Stop { client: ClientId },
    /// A client starts playing over HLS.
    Hls { client: ClientId },
}

/// Property of an endpoint of being of the given kind.
pub open spec fn endpoint_of_kind(kind: InputEndpointKind) -> spec_fn(InputEndpoint) -> bool {
    |e: InputEndpoint| e.kind == kind
}

/// Whether the endpoint `x` is the endpoint `e` with the given players and
/// nothing else changed.
pub open spec fn with_players(x: InputEndpoint, e: InputEndpoint, players: Seq<ClientId>) -> bool {
    &&& x.id == e.id
    &&& x.kind == e.kind
    &&& x.status == e.status
    &&& x.srs_publisher_id == e.srs_publisher_id
    &&& x.srs_player_ids@ == players
}

/// The players `ps` with the client `c` among them.
pub open spec fn players_with(ps: Seq<ClientId>, c: ClientId) -> Seq<ClientId> {
    if ps.contains(c) {
        ps
    } else {
        ps.push(c)
    }
}

/// Property of a client of not being the client `c`.
pub open spec fn other_than(c: ClientId) -> spec_fn(ClientId) -> bool {
    |p: ClientId| p != c
}

/// The players `ps` without the client `c`.
pub open spec fn players_without(ps: Seq<ClientId>, c: ClientId) -> Seq<ClientId> {
    ps.filter(other_than(c))
}

/// Result of the operation `op` on the endpoint of the given kind of the
/// input `i`.
pub open spec fn op_result(i: Input, kind: InputEndpointKind, op: EndpointOp) -> Result<
    (),
    CallbackError,
> {
    match first_where(i.endpoints@, endpoint_of_kind(kind)) {
        None => match op {
            EndpointOp::Hls { .. } => Err(CallbackError::StreamNotFound),
            _ => Err(CallbackError::VhostNotAllowed),
        },
        Some(k) => {
            let e = i.endpoints@[k];
            match op {
                EndpointOp::Publish { client, local } => if !local && (i.src is Some
                    || e.kind != InputEndpointKind::Rtmp) {
                    Err(CallbackError::OnlyLocal)
                } else {
                    Ok(())
                },
                EndpointOp::Hls { .. } => if e.status != Status::Online {
                    Err(CallbackError::NotReady)
                } else {
                    Ok(())
                },
                _ => Ok(()),
            }
        },
    }
}

/// Whether the endpoints `xs` are the endpoints of the input `i` after the
/// operation `op` on its first endpoint of the given kind: the publisher
/// of an accepted publication is remembered and its endpoint goes online,
/// an unpublished endpoint goes offline without a publisher, an accepted
/// player is remembered, and a stopped one forgotten.
pub open spec fn op_applied(xs: Seq<InputEndpoint>, i: Input, kind: InputEndpointKind, op: EndpointOp) -> bool {
    match first_where(i.endpoints@, endpoint_of_kind(kind)) {
        None => xs == i.endpoints@,
        Some(k) => {
            let e = i.endpoints@[k];
            if op_result(i, kind, op) is Err {
                xs == i.endpoints@
            } else {
                &&& only_at(xs, i.endpoints@, k)
                &&& match op {
                    EndpointOp::Publish { client, local } => xs[k] == (InputEndpoint {
                        srs_publisher_id: Some(client),
                        status: Status::Online,
                        ..e
                    }),
                    EndpointOp::Unpublish => xs[k] == (InputEndpoint {
                        srs_publisher_id: None,
                        status: Status::Offline,
                        ..e
                    }),
                    EndpointOp::Play { client } => with_players(
                        xs[k],
                        e,
                        players_with(e.srs_player_ids@, client),
                    ),
                    EndpointOp::Hls { client } => with_players(
                        xs[k],
                        e,
                        players_with(e.srs_player_ids@, client),
                    ),
                    EndpointOp::Stop { client } => with_players(
                        xs[k],
                        e,
                        players_without(e.srs_player_ids@, client),
                    ),
                }
            }
        },
    }
}

/// Adds the client to the players, unless it is among them already.
fn add_player(ps: &mut Vec<ClientId>, c: ClientId)
    ensures
        final(ps)@ == players_with(old(ps)@, c),
{
    let mut k: usize = 0;
    while k < ps.len()
        invariant
            k <= ps@.len(),
            forall|m: int| 0 <= m < k ==> ps@[m] != c,
        decreases ps@.len() - k,
    {
        if ps[k] == c {
            assert(ps@.contains(c));
            return;
        }
        k = k + 1;
    }
    ps.push(c);
}

/// Removes the client from the players.
fn remove_player(ps: &mut Vec<ClientId>, c: ClientId)
    ensures
        final(ps)@ == players_without(old(ps)@, c),
{
    let ghost all = ps@;
    let mut olds: Vec<ClientId> = Vec::new();
    std::mem::swap(&mut olds, ps);
    let mut k: usize = 0;
    while k < olds.len()
        invariant
            k <= olds@.len(),
            olds@ == all,
            ps@ == all.take(k as int).filter(other_than(c)),
        decreases olds@.len() - k,
    {
        proof {
            let pre = all.take(k + 1);
            assert(pre.drop_last() =~= all.take(k as int));
            reveal(Seq::filter);
        }
        if olds[k] != c {
            ps.push(olds[k]);
        }
        k = k + 1;
    }
    assert(all.take(k as int) =~= all);
}

/// Index of the first endpoint of the given kind.
fn find_endpoint(es: &Vec<InputEndpoint>, kind: InputEndpointKind) -> (res: Option<usize>)
    ensures
        match res {
            Some(j) => first_where(es@, endpoint_of_kind(kind)) == Some(j as int),
            None => first_where(es@, endpoint_of_kind(kind)) is None,
        },
{
    let mut k: usize = 0;
    while k < es.len()
        invariant
            k <= es@.len(),
            forall|m: int| 0 <= m < k ==> !endpoint_of_kind(kind)(#[trigger] es@[m]),
        decreases es@.len() - k,
    {
        if es[k].kind == kind {
            proof {
                lemma_first_where(es@, endpoint_of_kind(kind), k as int);
            }
            return Some(k);
        }
        k = k + 1;
    }
    proof {
        lemma_first_where_none(es@, endpoint_of_kind(kind));
    }
    None
}

/// Performs the operation `op` on the first endpoint of the given kind of
/// the input.
fn apply_op(input: &mut Input, kind: InputEndpointKind, op: EndpointOp) -> (res: Result<
    (),
    CallbackError,
>)
    ensures
        res == op_result(*old(input), kind, op),
        op_applied(final(input).endpoints@, *old(input), kind, op),
        final(input).id == old(input).id,
        final(input).key == old(input).key,
        final(input).enabled == old(input).enabled,
        final(input).src == old(input).src,
{
    let k = match find_endpoint(&input.endpoints, kind) {
        None => {
            return match op {
                EndpointOp::Hls { .. } => Err(CallbackError::StreamNotFound),
                _ => Err(CallbackError::VhostNotAllowed),
            };
        },
        Some(k) => k,
    };
    let ghost es = input.endpoints@;
    match op {
        EndpointOp::Publish { client, local } => {
            if !local && (input.src.is_some() || !input.endpoints[k].is_rtmp()) {
                return Err(CallbackError::OnlyLocal);
            }
            input.endpoints[k].srs_publisher_id = Some(client);
            input.endpoints[k].status = Status::Online;
        },
        EndpointOp::Unpublish => {
            input.endpoints[k].srs_publisher_id = None;
            input.endpoints[k].status = Status::Offline;
        },
        EndpointOp::Play { client } => {
            add_player(&mut input.endpoints[k].srs_player_ids, client);
        },
        EndpointOp::Hls { client } => {
            if input.endpoints[k].status != Status::Online {
                return Err(CallbackError::NotReady);
            }
            add_player(&mut input.endpoints[k].srs_player_ids, client);
        },
        EndpointOp::Stop { client } => {
            remove_player(&mut input.endpoints[k].srs_player_ids, client);
        },
    }
    assert(input.endpoints@ =~= es.update(k as int, input.endpoints@[k as int]));
    Ok(())
}

/// The input with the key `stream`: the input `o` itself, or the first one
/// found among its failover inputs, in order and in depth. With
/// `enabled_only`, a disabled input with that key is passed over together
/// with its own failover inputs.
pub open spec fn stream_find(o: Input, stream: Seq<char>, enabled_only: bool) -> Option<Input>
    decreases o,
{
    if o.key.view() == stream {
        if enabled_only && !o.enabled {
            None
        } else {
            Some(o)
        }
    } else {
        match o.src {
            Some(InputSrc::Failover(f)) => streams_find(f.inputs@, stream, enabled_only),
            _ => None,
        }
    }
}

/// The first input with the key `stream` among the inputs `os`, as
/// [`stream_find`] looks for it.
pub open spec fn streams_find(os: Seq<Input>, stream: Seq<char>, enabled_only: bool) -> Option<Input>
    decreases os,
{
    if os.len() == 0 {
        None
    } else {
        match streams_find(os.subrange(0, os.len() - 1), stream, enabled_only) {
            Some(x) => Some(x),
            None => stream_find(os[os.len() - 1], stream, enabled_only),
        }
    }
}

/// Whether the input `x` is the input `o` after the operation `op` on the
/// endpoint of the given kind of the input that [`stream_find`] finds, with
/// nothing else changed.
pub open spec fn stream_acted(
    x: Input,
    o: Input,
    stream: Seq<char>,
    enabled_only: bool,
    kind: InputEndpointKind,
    op: EndpointOp,
) -> bool
    decreases o,
{
    if o.key.view() == stream {
        if enabled_only && !o.enabled {
            x == o
        } else {
            &&& x.id == o.id
            &&& x.key == o.key
            &&& x.enabled == o.enabled
            &&& x.src == o.src
            &&& op_applied(x.endpoints@, o, kind, op)
        }
    } else {
        &&& x.id == o.id
        &&& x.key == o.key
        &&& x.enabled == o.enabled
        &&& x.endpoints == o.endpoints
        &&& match o.src {
            Some(InputSrc::Failover(f)) => {
                &&& x.src matches Some(InputSrc::Failover(g))
                &&& streams_acted(g.inputs@, f.inputs@, stream, enabled_only, kind, op)
            },
            _ => x.src == o.src,
        }
    }
}

/// Whether the inputs `xs` are the inputs `os` after the operation `op` on
/// the input that [`streams_find`] finds, with nothing else changed.
pub open spec fn streams_acted(
    xs: Seq<Input>,
    os: Seq<Input>,
    stream: Seq<char>,
    enabled_only: bool,
    kind: InputEndpointKind,
    op: EndpointOp,
) -> bool
    decreases os,
{
    &&& xs.len() == os.len()
    &&& os.len() > 0 ==> {
        let oh = os.subrange(0, os.len() - 1);
        &&& streams_acted(xs.drop_last(), oh, stream, enabled_only, kind, op)
        &&& if streams_find(oh, stream, enabled_only) is Some {
            xs.last() == os[os.len() - 1]
        } else {
            stream_acted(xs.last(), os[os.len() - 1], stream, enabled_only, kind, op)
        }
    }
}

/// What is found for a stream is an input with that key (enabled, with
/// `enabled_only`).
pub proof fn lemma_stream_found_has_key(o: Input, stream: Seq<char>, enabled_only: bool)
    ensures
        stream_find(o, stream, enabled_only) matches Some(t) ==> t.key.view() == stream && (
        enabled_only ==> t.enabled),
    decreases o,
{
    if o.key.view() != stream {
        match o.src {
            Some(InputSrc::Failover(f)) => {
                assert(decreases_to!(o => o.src));
                lemma_streams_found_have_key(f.inputs@, stream, enabled_only);
            },
            _ => {},
        }
    }
}

/// What is found for a stream among inputs is an input with that key
/// (enabled, with `enabled_only`).
pub proof fn lemma_streams_found_have_key(os: Seq<Input>, stream: Seq<char>, enabled_only: bool)
    ensures
        streams_find(os, stream, enabled_only) matches Some(t) ==> t.key.view() == stream && (
        enabled_only ==> t.enabled),
    decreases os,
{
    if os.len() > 0 {
        lemma_streams_found_have_key(os.subrange(0, os.len() - 1), stream, enabled_only);
        lemma_stream_found_has_key(os[os.len() - 1], stream, enabled_only);
    }
}

/// An input with the requested key (and enabled, with `enabled_only`) is the
/// one acted on.
pub proof fn lemma_stream_found_itself(o: Input, stream: Seq<char>, enabled_only: bool)
    requires
        o.key.view() == stream,
        enabled_only ==> o.enabled,
    ensures
        stream_find(o, stream, enabled_only) == Some(o),
{
}

/// Where one of the inputs has, at any depth, an input for the stream, an
/// input is found for it among them.
pub proof fn lemma_streams_found_where_one_is(os: Seq<Input>, stream: Seq<char>, enabled_only: bool, j: int)
    requires
        0 <= j < os.len(),
        stream_find(os[j], stream, enabled_only) is Some,
    ensures
        streams_find(os, stream, enabled_only) is Some,
    decreases os.len(),
{
    if j < os.len() - 1 {
        let oh = os.subrange(0, os.len() - 1);
        assert(oh[j] == os[j]);
        lemma_streams_found_where_one_is(oh, stream, enabled_only, j);
    }
}

/// Failover inputs are searched: where the input itself does not have the
/// requested key, but one of its failover inputs has, at any depth, an
/// input for the stream, an input is found for it, so the callback acts on
/// an input and does not answer that the stream is not found.
pub proof fn lemma_stream_found_in_failover(o: Input, stream: Seq<char>, enabled_only: bool, j: int)
    requires
        o.key.view() != stream,
        o.src matches Some(InputSrc::Failover(f)) && 0 <= j < f.inputs@.len() && stream_find(
            f.inputs@[j],
            stream,
            enabled_only,
        ) is Some,
    ensures
        stream_find(o, stream, enabled_only) is Some,
{
    let f = o.src->Some_0->Failover_0;
    lemma_streams_found_where_one_is(f.inputs@, stream, enabled_only, j);
}

/// The operation is done on the input found for the stream: after it, the
/// same search finds that input (same ID and key) with the operation done on
/// its endpoints; where nothing is found, nothing is found after either.
pub proof fn lemma_acted_on_found(
    x: Input,
    o: Input,
    stream: Seq<char>,
    enabled_only: bool,
    kind: InputEndpointKind,
    op: EndpointOp,
)
    requires
        stream_acted(x, o, stream, enabled_only, kind, op),
    ensures
        match stream_find(o, stream, enabled_only) {
            None => stream_find(x, stream, enabled_only) is None,
            Some(t) => stream_find(x, stream, enabled_only) matches Some(u) && u.id == t.id && u.key
                == t.key && op_applied(u.endpoints@, t, kind, op),
        },
    decreases o,
{
    if o.key.view() != stream {
        match o.src {
            Some(InputSrc::Failover(f)) => {
                assert(decreases_to!(o => o.src));
                let os = o.src->Some_0;
                assert(decreases_to!(o.src => os));
                assert(decreases_to!(os => os->Failover_0));
                assert(os->Failover_0 == f);
                assert(decreases_to!(f => f.inputs));
                assert(decreases_to!(f.inputs => f.inputs@));
                let g = x.src->Some_0->Failover_0;
                lemma_streams_acted_on_found(g.inputs@, f.inputs@, stream, enabled_only, kind, op);
            },
            _ => {},
        }
    }
}

/// The operation is done on the input found for the stream among inputs, as
/// [`lemma_acted_on_found`] says of one input.
pub proof fn lemma_streams_acted_on_found(
    xs: Seq<Input>,
    os: Seq<Input>,
    stream: Seq<char>,
    enabled_only: bool,
    kind: InputEndpointKind,
    op: EndpointOp,
)
    requires
        streams_acted(xs, os, stream, enabled_only, kind, op),
    ensures
        match streams_find(os, stream, enabled_only) {
            None => streams_find(xs, stream, enabled_only) is None,
            Some(t) => streams_find(xs, stream, enabled_only) matches Some(u) && u.id == t.id && u.key
                == t.key && op_applied(u.endpoints@, t, kind, op),
        },
    decreases os,
{
    if os.len() > 0 {
        let oh = os.subrange(0, os.len() - 1);
        let xh = xs.drop_last();
        assert(xs.subrange(0, xs.len() - 1) =~= xh);
        assert(decreases_to!(os => oh));
        lemma_streams_acted_on_found(xh, oh, stream, enabled_only, kind, op);
        if streams_find(oh, stream, enabled_only) is None {
            assert(decreases_to!(os => os[os.len() - 1]));
            lemma_acted_on_found(xs.last(), os[os.len() - 1], stream, enabled_only, kind, op);
        }
    }
}

/// Once the input is found among the first `k` inputs, the inputs after them
/// are left as they are.
proof fn lemma_acted_rest(
    xs: Seq<Input>,
    os: Seq<Input>,
    k: int,
    stream: Seq<char>,
    enabled_only: bool,
    kind: InputEndpointKind,
    op: EndpointOp,
)
    requires
        0 <= k <= os.len(),
        xs.len() == os.len(),
        streams_acted(xs.take(k), os.take(k), stream, enabled_only, kind, op),
        streams_find(os.take(k), stream, enabled_only) is Some,
        forall|m: int| k <= m < os.len() ==> xs[m] == os[m],
    ensures
        streams_acted(xs, os, stream, enabled_only, kind, op),
        streams_find(os, stream, enabled_only) == streams_find(os.take(k), stream, enabled_only),
    decreases os.len(),
{
    if k == os.len() {
        assert(xs.take(k) =~= xs);
        assert(os.take(k) =~= os);
    } else {
        let oh = os.subrange(0, os.len() - 1);
        let xh = xs.drop_last();
        assert(oh.take(k) =~= os.take(k));
        assert(xh.take(k) =~= xs.take(k));
        lemma_acted_rest(xh, oh, k, stream, enabled_only, kind, op);
    }
}

impl Input {
    /// Performs the operation `op` on the endpoint of the given kind of the
    /// input with the key `stream`, as [`stream_find`] finds it. Returns
    /// `None` if there is no such input.
    fn act_on_stream(
        &mut self,
        stream: &str,
        enabled_only: bool,
        kind: InputEndpointKind,
        op: EndpointOp,
    ) -> (res: Option<Result<(), CallbackError>>)
        ensures
            stream_acted(*final(self), *old(self), stream@, enabled_only, kind, op),
            match res {
                None => stream_find(*old(self), stream@, enabled_only) is None,
                Some(r) => stream_find(*old(self), stream@, enabled_only) matches Some(t) && r
                    == op_result(t, kind, op),
            },
        decreases *old(self),
    {
        let ghost o = *self;
        if self.key.eq(stream) {
            if enabled_only && !self.enabled {
                return None;
            }
            return Some(apply_op(self, kind, op));
        }
        match self.src.take() {
            Some(InputSrc::Failover(mut f)) => {
                let ghost f0 = f;
                let mut k: usize = 0;
                let mut res: Option<Result<(), CallbackError>> = None;
                while k < f.inputs.len() && res.is_none()
                    invariant
                        k <= f.inputs@.len(),
                        f.inputs@.len() == f0.inputs@.len(),
                        o == *old(self),
                        o.src == Some(InputSrc::Failover(f0)),
                        o.key.view() != stream@,
                        forall|m: int|
                            k <= m < f.inputs@.len() ==> #[trigger] f.inputs@[m] == f0.inputs@[m],
                        streams_acted(
                            f.inputs@.take(k as int),
                            f0.inputs@.take(k as int),
                            stream@,
                            enabled_only,
                            kind,
                            op,
                        ),
                        res is None ==> streams_find(f0.inputs@.take(k as int), stream@, enabled_only)
                            is None,
                        res matches Some(r) ==> {
                            &&& streams_find(f0.inputs@.take(k as int), stream@, enabled_only)
                                matches Some(t)
                            &&& r == op_result(t, kind, op)
                        },
                    decreases f.inputs@.len() - k,
                {
                    proof {
                        assert(decreases_to!(o => o.src));
                        let os = o.src->Some_0;
                        assert(decreases_to!(o.src => os));
                        assert(decreases_to!(os => os->Failover_0));
                        assert(os->Failover_0 == f0);
                        assert(decreases_to!(f0 => f0.inputs));
                        assert(decreases_to!(f0.inputs => f0.inputs@));
                        assert(decreases_to!(f0.inputs@ => f0.inputs@[k as int]));
                        let pre = f0.inputs@.take(k + 1);
                        assert(pre.subrange(0, pre.len() - 1) =~= f0.inputs@.take(k as int));
                    }
                    let ghost xs0 = f.inputs@;
                    res = f.inputs[k].act_on_stream(stream, enabled_only, kind, op);
                    proof {
                        assert(f.inputs@.take(k + 1).drop_last() =~= xs0.take(k as int));
                    }
                    k = k + 1;
                }
                proof {
                    if res is Some {
                        lemma_acted_rest(f.inputs@, f0.inputs@, k as int, stream@, enabled_only, kind, op);
                    } else {
                        assert(f0.inputs@.take(k as int) =~= f0.inputs@);
                        assert(f.inputs@.take(k as int) =~= f.inputs@);
                    }
                }
                self.src = Some(InputSrc::Failover(f));
                res
            },
            other => {
                self.src = other;
                None
            },
        }
    }
}

/// Property of a re-stream of having the key `app` and, with
/// `enabled_only`, an enabled input.
pub open spec fn restream_for(app: Seq<char>, enabled_only: bool) -> spec_fn(Restream) -> bool {
    |r: Restream| r.key.view() == app && (!enabled_only || r.input.enabled)
}

/// Index of the first re-stream with the key `app` and, with
/// `enabled_only`, an enabled input.
fn find_app(rs: &Vec<Restream>, app: &str, enabled_only: bool) -> (res: Option<usize>)
    ensures
        match res {
            Some(j) => first_where(rs@, restream_for(app@, enabled_only)) == Some(j as int),
            None => first_where(rs@, restream_for(app@, enabled_only)) is None,
        },
{
    let mut k: usize = 0;
    while k < rs.len()
        invariant
            k <= rs@.len(),
            forall|m: int| 0 <= m < k ==> !restream_for(app@, enabled_only)(#[trigger] rs@[m]),
        decreases rs@.len() - k,
    {
        if rs[k].key.eq(app) && (!enabled_only || rs[k].input.enabled) {
            proof {
                lemma_first_where(rs@, restream_for(app@, enabled_only), k as int);
            }
            return Some(k);
        }
        k = k + 1;
    }
    proof {
        lemma_first_where_none(rs@, restream_for(app@, enabled_only));
    }
    None
}

/// Text of the requested `stream`: empty if none.
pub open spec fn stream_of(req: Request) -> Seq<char> {
    match req.stream {
        Some(s) => s@,
        None => ""@,
    }
}

/// Kind of the endpoint that the requested `vhost` names.
pub open spec fn kind_of(req: Request) -> InputEndpointKind {
    if req.vhost@ == "hls"@ {
        InputEndpointKind::Hls
    } else {
        InputEndpointKind::Rtmp
    }
}

/// Whether the state `x` and the result `res` are those of the operation
/// `op` on the endpoint of the given kind of the input with the key
/// `stream` in the (enabled, with `enabled_only`) re-stream with the key
/// `app` of the state `o`.
pub open spec fn callback_done(
    o: State,
    x: State,
    app: Seq<char>,
    stream: Seq<char>,
    enabled_only: bool,
    kind: InputEndpointKind,
    op: EndpointOp,
    res: Result<(), CallbackError>,
) -> bool {
    match first_where(o.restreams@, restream_for(app, enabled_only)) {
        None => res == Err::<(), CallbackError>(CallbackError::AppNotFound) && x == o,
        Some(j) => {
            &&& x.password_hash == o.password_hash
            &&& only_at(x.restreams@, o.restreams@, j)
            &&& input_changed(x.restreams@[j], o.restreams@[j])
            &&& stream_acted(
                x.restreams@[j].input,
                o.restreams@[j].input,
                stream,
                enabled_only,
                kind,
                op,
            )
            &&& match stream_find(o.restreams@[j].input, stream, enabled_only) {
                None => res == Err::<(), CallbackError>(CallbackError::StreamNotFound),
                Some(t) => res == op_result(t, kind, op),
            }
        },
    }
}

/// Performs the operation `op` on the endpoint of the given kind of the
/// input with the key `stream` in the re-stream with the key `app`.
fn act(
    state: &mut State,
    app: &str,
    stream: &str,
    enabled_only: bool,
    kind: InputEndpointKind,
    op: EndpointOp,
) -> (res: Result<(), CallbackError>)
    ensures
        callback_done(*old(state), *final(state), app@, stream@, enabled_only, kind, op, res),
{
    let j = match find_app(&state.restreams, app, enabled_only) {
        None => {
            return Err(CallbackError::AppNotFound);
        },
        Some(j) => j,
    };
    let ghost rs = state.restreams@;
    let r = state.restreams[j].input.act_on_stream(stream, enabled_only, kind, op);
    assert(state.restreams@ =~= rs.update(j as int, state.restreams@[j as int]));
    match r {
        None => Err(CallbackError::StreamNotFound),
        Some(r) => r,
    }
}

/// The requested `stream`: empty if none.
fn stream_str(req: &Request) -> (res: &str)
    ensures
        res@ == stream_of(*req),
{
    match &req.stream {
        Some(s) => s.as_str(),
        None => "",
    }
}

/// Kind of the endpoint that the requested `vhost` names.
fn vhost_kind(req: &Request) -> (res: InputEndpointKind)
    ensures
        res == kind_of(*req),
{
    if str_eq(req.vhost.as_str(), "hls") {
        InputEndpointKind::Hls
    } else {
        InputEndpointKind::Rtmp
    }
}

/// Decides on a client connecting to an `app`: accepted if a re-stream with
/// that key and an enabled input exists.
pub fn on_connect(req: &Request, state: &State) -> (res: Result<(), CallbackError>)
    ensures
        match first_where(state.restreams@, restream_for(req.app@, true)) {
            Some(_) => res is Ok,
            None => res == Err::<(), CallbackError>(CallbackError::AppNotFound),
        },
{
    match find_app(&state.restreams, req.app.as_str(), true) {
        Some(_) => Ok(()),
        None => Err(CallbackError::AppNotFound),
    }
}

/// The operation of a client starting to publish or to play.
pub open spec fn start_op(req: Request, publishing: bool) -> EndpointOp {
    if publishing {
        EndpointOp::Publish { client: req.client_id, local: req.ip_is_loopback }
    } else {
        EndpointOp::Play { client: req.client_id }
    }
}

/// The operation of a client stopping to publish or to play.
pub open spec fn stop_op(req: Request, publishing: bool) -> EndpointOp {
    if publishing {
        EndpointOp::Unpublish
    } else {
        EndpointOp::Stop { client: req.client_id }
    }
}

/// Decides on a client starting to publish (if `publishing`) or to play a
/// stream: the enabled input with the requested key in the re-stream of the
/// requested `app` (with an enabled input) must have an endpoint of the
/// requested kind; a publication must come from the local machine unless
/// it goes to an RTMP endpoint of an input that pulls nothing. The
/// publisher is remembered and its endpoint goes online; a player is
/// remembered.
pub fn on_start(req: &Request, state: &mut State, publishing: bool) -> (res: Result<
    (),
    CallbackError,
>)
    ensures
        callback_done(
            *old(state),
            *final(state),
            req.app@,
            stream_of(*req),
            true,
            kind_of(*req),
            start_op(*req, publishing),
            res,
        ),
{
    let op = if publishing {
        EndpointOp::Publish { client: req.client_id, local: req.ip_is_loopback }
    } else {
        EndpointOp::Play { client: req.client_id }
    };
    act(state, req.app.as_str(), stream_str(req), true, vhost_kind(req), op)
}

/// Decides on a client stopping to publish (if `publishing`) or to play a
/// stream of the input with the requested key in the re-stream of the
/// requested `app`: a stopped publication leaves its endpoint offline
/// without a publisher, and a stopped player is forgotten.
pub fn on_stop(req: &Request, state: &mut State, publishing: bool) -> (res: Result<
    (),
    CallbackError,
>)
    ensures
        callback_done(
            *old(state),
            *final(state),
            req.app@,
            stream_of(*req),
            false,
            kind_of(*req),
            stop_op(*req, publishing),
            res,
        ),
{
    let op = if publishing {
        EndpointOp::Unpublish
    } else {
        EndpointOp::Stop { client: req.client_id }
    };
    act(state, req.app.as_str(), stream_str(req), false, vhost_kind(req), op)
}

/// Decides on a client requesting a stream over HLS: the `vhost` must be
/// `hls`, and the enabled input with the requested key in the re-stream of
/// the requested `app` (with an enabled input) must have an online HLS
/// endpoint; the player is remembered.
pub fn on_hls(req: &Request, state: &mut State) -> (res: Result<(), CallbackError>)
    ensures
        if req.vhost@ != "hls"@ {
            res == Err::<(), CallbackError>(CallbackError::VhostNotAllowed) && *final(state) == *old(
                state,
            )
        } else {
            callback_done(
                *old(state),
                *final(state),
                req.app@,
                stream_of(*req),
                true,
                InputEndpointKind::Hls,
                EndpointOp::Hls { client: req.client_id },
                res,
            )
        },
{
    if !str_eq(req.vhost.as_str(), "hls") {
        return Err(CallbackError::VhostNotAllowed);
    }
    act(
        state,
        req.app.as_str(),
        stream_str(req),
        true,
        InputEndpointKind::Hls,
        EndpointOp::Hls { client: req.client_id },
    )
}

/// Decides on a callback of SRS by its event.
pub fn on_callback(req: &Request, state: &mut State) -> (res: Result<(), CallbackError>)
    ensures
        match req.action {
            Event::OnConnect => *final(state) == *old(state) && match first_where(
                old(state).restreams@,
                restream_for(req.app@, true),
            ) {
                Some(_) => res is Ok,
                None => res == Err::<(), CallbackError>(CallbackError::AppNotFound),
            },
            Event::OnPublish => callback_done(
                *old(state),
                *final(state),
                req.app@,
                stream_of(*req),
                true,
                kind_of(*req),
                start_op(*req, true),
                res,
            ),
            Event::OnUnpublish => callback_done(
                *old(state),
                *final(state),
                req.app@,
                stream_of(*req),
                false,
                kind_of(*req),
                stop_op(*req, true),
                res,
            ),
            Event::OnPlay => callback_done(
                *old(state),
                *final(state),
                req.app@,
                stream_of(*req),
                true,
                kind_of(*req),
                start_op(*req, false),
                res,
            ),
            Event::OnStop => callback_done(
                *old(state),
                *final(state),
                req.app@,
                stream_of(*req),
                false,
                kind_of(*req),
                stop_op(*req, false),
                res,
            ),
            Event::OnHls => if req.vhost@ != "hls"@ {
                res == Err::<(), CallbackError>(CallbackError::VhostNotAllowed) && *final(state)
                    == *old(state)
            } else {
                callback_done(
                    *old(state),
                    *final(state),
                    req.app@,
                    stream_of(*req),
                    true,
                    InputEndpointKind::Hls,
                    EndpointOp::Hls { client: req.client_id },
                    res,
                )
            },
        },
{
    match req.action {
        Event::OnConnect => on_connect(req, state),
        Event::OnPublish => on_start(req, state, true),
        Event::OnUnpublish => on_stop(req, state, true),
        Event::OnPlay => on_start(req, state, false),
        Event::OnStop => on_stop(req, state, false),
        Event::OnHls => on_hls(req, state),
    }
}

} // verus!

//! The pool of running FFmpeg processes, identified by the IDs of the
//! elements of the state they serve: which processes the re-streams need,
//! which running ones carry on (tuned in place), and which are started anew.
//! Processes of the pool that no element needs any more are stopped.

use vstd::prelude::*;

use crate::restreamer::dvr::Storage;
use crate::restreamer::ffmpeg::{
    absolute, input_kind, kind_restarts, kind_tuned, kind_tunes, online_input, output_kind,
    output_ports, ports_after, lemma_ports_stay_in_range, RestreamerKind, VolumeTune,
    FIRST_ZMQ_PORT,
};
use crate::restreamer::merge::first_where;
use crate::restreamer::state::{
    ready_to_serve, rtmp_url_text, Input, InputEndpoint, InputEndpointKind, InputSrc, Output,
    Restream, RestreamKey,
};

verus! {

/// A process of the pool.
#[derive(Debug)]
pub struct Running {
    /// ID of the element of the state that the process serves.
    pub id: u128,
    /// What the process does.
    pub kind: RestreamerKind,
    /// Whether the process is to be started: otherwise it is the running
    /// one of the same ID, carried on.
    pub fresh: bool,
    /// Tunings that FFmpeg is to be sent, for a process carried on.
    pub tunes: Vec<VolumeTune>,
}

/// Pool of FFmpeg processes.
#[derive(Debug)]
pub struct Pool {
    /// The processes, one for each ID.
    pub running: Vec<Running>,
}

/// Whether no two processes serve the same ID.
pub open spec fn ids_unique(rs: Seq<Running>) -> bool {
    forall|i: int, j: int| 0 <= i < j < rs.len() ==> (#[trigger] rs[i]).id != (#[trigger] rs[j]).id
}

/// Property of a process of serving the given ID.
pub open spec fn running_id_is(id: u128) -> spec_fn(Running) -> bool {
    |r: Running| r.id == id
}

/// The process serving the given ID, if any.
pub open spec fn entry_of(rs: Seq<Running>, id: u128) -> Option<Running> {
    match first_where(rs, running_id_is(id)) {
        Some(j) => Some(rs[j]),
        None => None,
    }
}

/// A place in the state that may need a process: an endpoint of an input of
/// the re-stream with the given key, or an output fed from the given URL.
pub enum Point {
    /// An input endpoint.
    Endpoint(Seq<char>, Input, InputEndpoint),
    /// An output.
    Output(Seq<char>, Output),
}

/// ID of the element at a point.
pub open spec fn point_id(p: Point) -> u128 {
    match p {
        Point::Endpoint(_, _, e) => e.id.0,
        Point::Output(_, o) => o.id.0,
    }
}

/// Whether the endpoint of the input needs a process: the input is
/// enabled, and an RTMP endpoint pulls from a remote source or from an
/// online failover input, or an HLS endpoint has a live stream to serve.
pub open spec fn endpoint_needs(i: Input, e: InputEndpoint) -> bool {
    &&& i.enabled
    &&& match e.kind {
        InputEndpointKind::Rtmp => match i.src {
            None => false,
            Some(InputSrc::Remote(_)) => true,
            Some(InputSrc::Failover(f)) => first_where(f.inputs@, online_input()) is Some,
        },
        InputEndpointKind::Hls => ready_to_serve(i),
    }
}

/// Whether the element at a point needs a process.
pub open spec fn point_active(p: Point) -> bool {
    match p {
        Point::Endpoint(_, i, e) => endpoint_needs(i, e),
        Point::Output(_, o) => o.enabled,
    }
}

/// How many ports the process at a point takes.
pub open spec fn point_ports(p: Point) -> nat {
    match p {
        Point::Endpoint(_, _, _) => 0,
        Point::Output(_, o) => output_ports(o),
    }
}

/// Points of the endpoints of an input, in order.
pub open spec fn endpoint_points(key: Seq<char>, i: Input, es: Seq<InputEndpoint>) -> Seq<Point> {
    es.map_values(|e: InputEndpoint| Point::Endpoint(key, i, e))
}

/// Points of an input: those of its failover inputs, in order and in depth,
/// then those of its own endpoints.
pub open spec fn input_points(key: Seq<char>, i: Input) -> Seq<Point>
    decreases i,
{
    (match i.src {
        Some(InputSrc::Failover(f)) => inputs_points(key, f.inputs@),
        _ => Seq::empty(),
    }) + endpoint_points(key, i, i.endpoints@)
}

/// Points of the inputs, in order.
pub open spec fn inputs_points(key: Seq<char>, is: Seq<Input>) -> Seq<Point>
    decreases is,
{
    if is.len() == 0 {
        Seq::empty()
    } else {
        inputs_points(key, is.subrange(0, is.len() - 1)) + input_points(key, is[is.len() - 1])
    }
}

/// Points of the failover inputs of an input, in order and in depth.
pub open spec fn failover_points(key: Seq<char>, i: Input) -> Seq<Point> {
    match i.src {
        Some(InputSrc::Failover(f)) => inputs_points(key, f.inputs@),
        _ => Seq::empty(),
    }
}

/// Points of the outputs of a re-stream, fed from its main input.
pub open spec fn output_points(r: Restream) -> Seq<Point> {
    let from = rtmp_url_text(InputEndpointKind::Rtmp, r.key.view(), r.input.key.view());
    r.outputs@.map_values(|o: Output| Point::Output(from, o))
}

/// Points of a re-stream: those of its input, then, once the input is
/// enabled and ready to serve, those of its outputs.
pub open spec fn restream_points(r: Restream) -> Seq<Point> {
    input_points(r.key.view(), r.input) + if r.input.enabled && ready_to_serve(r.input) {
        output_points(r)
    } else {
        Seq::empty()
    }
}

/// Points of the first `n` re-streams, in order.
pub open spec fn points(rs: Seq<Restream>, n: nat) -> Seq<Point>
    decreases n,
{
    if n == 0 {
        Seq::empty()
    } else {
        points(rs, (n - 1) as nat) + restream_points(rs[n - 1])
    }
}

/// Index of the last of the points that needs a process for the given ID.
pub open spec fn last_active(ps: Seq<Point>, id: u128) -> Option<int>
    decreases ps.len(),
{
    if ps.len() == 0 {
        None
    } else if point_active(ps.last()) && point_id(ps.last()) == id {
        Some(ps.len() - 1)
    } else {
        last_active(ps.drop_last(), id)
    }
}

/// Ports that the processes at the first `n` points take.
pub open spec fn ports_before(ps: Seq<Point>, n: nat) -> nat
    decreases n,
{
    if n == 0 || n > ps.len() {
        0
    } else {
        ports_before(ps, (n - 1) as nat) + point_ports(ps[n - 1])
    }
}

/// The running process that the point at index `i` finds for its ID: the
/// one of the pool `old`, unless an earlier point took it already.
pub open spec fn found_at(old: Seq<Running>, ps: Seq<Point>, i: int) -> Option<Running> {
    if last_active(ps.take(i), point_id(ps[i])) is Some {
        None
    } else {
        entry_of(old, point_id(ps[i]))
    }
}

/// Kind of the running process, if any.
pub open spec fn kind_of(r: Option<Running>) -> Option<RestreamerKind> {
    match r {
        Some(r) => Some(r.kind),
        None => None,
    }
}

/// Whether `k` is the process that the point needs (`prev` is the running
/// process of its ID, `port` the latest port taken).
pub open spec fn demands(
    p: Point,
    k: RestreamerKind,
    root: Seq<char>,
    prev: Option<RestreamerKind>,
    port: u16,
) -> bool {
    match p {
        Point::Endpoint(key, i, e) => input_kind(Some(k), i, e, key),
        Point::Output(from, o) => output_kind(Some(k), o, from, root, prev, port),
    }
}

/// Whether `e` is the process for a need of `k`, given the running process
/// `found` of its ID: that one carried on and tuned to `k` when `k` needs
/// no restart of it, else `k` started anew.
pub open spec fn entry_made(e: Running, found: Option<Running>, k: RestreamerKind) -> bool {
    match found {
        Some(f) => if !kind_restarts(f.kind, k) {
            &&& !e.fresh
            &&& kind_tuned(e.kind, f.kind, k)
            &&& e.tunes@ == kind_tunes(f.kind, k)
        } else {
            &&& e.fresh
            &&& e.kind == k
            &&& e.tunes@.len() == 0
        },
        None => {
            &&& e.fresh
            &&& e.kind == k
            &&& e.tunes@.len() == 0
        },
    }
}

/// Whether `e` is the process for the point, which finds `found` running
/// for its ID, with the latest port taken being `port`.
pub open spec fn settled(e: Running, p: Point, found: Option<Running>, root: Seq<char>, port: u16) -> bool {
    &&& e.id == point_id(p)
    &&& exists|k: RestreamerKind| #[trigger]
        demands(p, k, root, kind_of(found), port) && entry_made(e, found, k)
}

/// Whether `new` is the pool that the points `ps` make out of the pool
/// `old`: for each ID, the process of the last point that needs one for it.
pub open spec fn pool_after(
    old: Seq<Running>,
    ps: Seq<Point>,
    new: Seq<Running>,
    root: Seq<char>,
    latest: u16,
) -> bool {
    &&& ids_unique(new)
    &&& forall|id: u128|
        match #[trigger] last_active(ps, id) {
            None => entry_of(new, id) is None,
            Some(i) => entry_of(new, id) matches Some(e) && settled(
                e,
                ps[i],
                found_at(old, ps, i),
                root,
                ports_after(latest, ports_before(ps, i as nat)),
            ),
        }
}

/// Whether `rest` is what is left of the pool `old` once the points `ps`
/// took the processes of their IDs.
pub open spec fn remaining(old: Seq<Running>, ps: Seq<Point>, rest: Seq<Running>) -> bool {
    &&& ids_unique(rest)
    &&& forall|id: u128|
        #[trigger] entry_of(rest, id) == if last_active(ps, id) is Some {
            None
        } else {
            entry_of(old, id)
        }
}

/// Whether the main input of each re-stream that feeds its outputs has an
/// RTMP endpoint, whose URL the outputs pull from.
pub open spec fn mains_have_rtmp(rs: Seq<Restream>) -> bool {
    forall|k: int|
        0 <= k < rs.len() && (#[trigger] rs[k]).input.enabled && ready_to_serve(rs[k].input)
            ==> exists|m: int|
            0 <= m < rs[k].input.endpoints@.len() && (#[trigger] rs[k].input.endpoints@[m]).kind
                == InputEndpointKind::Rtmp
}

/// Whether `old`, `new` and `latest` are the pool left, the pool made and
/// the latest port taken once the points `ps` are gone through from the
/// pool `old0` and the port `latest0`.
pub open spec fn went_through(
    old0: Seq<Running>,
    ps: Seq<Point>,
    old: Seq<Running>,
    new: Seq<Running>,
    root: Seq<char>,
    latest0: u16,
    latest: u16,
) -> bool {
    &&& remaining(old0, ps, old)
    &&& pool_after(old0, ps, new, root, latest0)
    &&& latest == ports_after(latest0, ports_before(ps, ps.len()))
}

/// Whether `rest2` and `made2` are the pools `rest` and `made` once the
/// need of the process `k` for `id` is taken: the running process of `id`
/// left `rest`, and `made` holds the process for `k` under `id`.
pub open spec fn took(
    rest: Seq<Running>,
    made: Seq<Running>,
    rest2: Seq<Running>,
    made2: Seq<Running>,
    id: u128,
    k: RestreamerKind,
) -> bool {
    &&& ids_unique(rest2)
    &&& ids_unique(made2)
    &&& entry_of(rest2, id) is None
    &&& forall|x: u128| x != id ==> #[trigger] entry_of(rest2, x) == entry_of(rest, x)
    &&& forall|x: u128| x != id ==> #[trigger] entry_of(made2, x) == entry_of(made, x)
    &&& entry_of(made2, id) matches Some(e) && entry_made(e, entry_of(rest, id), k)
}

/// Under unique IDs, the process serving an ID is the one at any index
/// that serves it, and none serves an ID that no index serves.
pub(crate) proof fn lemma_entry_of(rs: Seq<Running>, id: u128)
    requires
        ids_unique(rs),
    ensures
        entry_of(rs, id) is None <==> forall|m: int| 0 <= m < rs.len() ==> (#[trigger] rs[m]).id != id,
        forall|m: int| 0 <= m < rs.len() && (#[trigger] rs[m]).id == id ==> entry_of(rs, id) == Some(rs[m]),
{
    assert forall|m: int| 0 <= m < rs.len() && (#[trigger] rs[m]).id == id implies entry_of(rs, id) == Some(
        rs[m],
    ) by {
        assert forall|q: int| 0 <= q < m implies !running_id_is(id)(#[trigger] rs[q]) by {
            assert(rs[q].id != rs[m].id);
        }
        crate::restreamer::merge::lemma_first_where(rs, running_id_is(id), m);
    }
    if forall|m: int| 0 <= m < rs.len() ==> (#[trigger] rs[m]).id != id {
        assert forall|m: int| 0 <= m < rs.len() implies !running_id_is(id)(#[trigger] rs[m]) by {}
        crate::restreamer::merge::lemma_first_where_none(rs, running_id_is(id));
    }
}

/// Index of the process serving the given ID, if any.
fn find_running(rs: &Vec<Running>, id: u128) -> (res: Option<usize>)
    requires
        ids_unique(rs@),
    ensures
        match res {
            Some(j) => j < rs@.len() && rs@[j as int].id == id && entry_of(rs@, id) == Some(rs@[j as int]),
            None => entry_of(rs@, id) is None,
        },
{
    let mut k: usize = 0;
    while k < rs.len()
        invariant
            k <= rs@.len(),
            ids_unique(rs@),
            forall|m: int| 0 <= m < k ==> (#[trigger] rs@[m]).id != id,
        decreases rs@.len() - k,
    {
        if rs[k].id == id {
            proof {
                lemma_entry_of(rs@, id);
            }
            return Some(k);
        }
        k = k + 1;
    }
    proof {
        lemma_entry_of(rs@, id);
    }
    None
}

/// Takes the need of the process `kind` for `id`: the running process of
/// `id` leaves `rest`; it carries on into `made`, tuned to `kind`, when `kind`
/// needs no restart of it, else `kind` goes into `made` to be started.
fn settle(rest: &mut Vec<Running>, made: &mut Vec<Running>, id: u128, kind: RestreamerKind)
    requires
        ids_unique(old(rest)@),
        ids_unique(old(made)@),
    ensures
        took(old(rest)@, old(made)@, final(rest)@, final(made)@, id, kind),
{
    let ghost old0 = rest@;
    let ghost new0 = made@;
    let e = match find_running(rest, id) {
        Some(j) => {
            let mut f = rest.remove(j);
            proof {
                assert forall|x: u128| #[trigger] entry_of(rest@, x) == (if x == id {
                    None
                } else {
                    entry_of(old0, x)
                }) by {
                    lemma_entry_of(old0, x);
                    assert forall|a: int, b: int| 0 <= a < b < rest@.len() implies (#[trigger] rest@[a]).id
                        != (#[trigger] rest@[b]).id by {
                        let a0 = if a < j { a } else { a + 1 };
                        let b0 = if b < j { b } else { b + 1 };
                        assert(rest@[a] == old0[a0] && rest@[b] == old0[b0]);
                    }
                    lemma_entry_of(rest@, x);
                    if x != id {
                        assert forall|m: int| 0 <= m < old0.len() && (#[trigger] old0[m]).id == x implies exists|q: int|
                            0 <= q < rest@.len() && rest@[q] == old0[m] by {
                            if m < j {
                                assert(rest@[m] == old0[m]);
                            } else {
                                assert(m != j);
                                assert(rest@[m - 1] == old0[m]);
                            }
                        }
                        assert forall|q: int| 0 <= q < rest@.len() && (#[trigger] rest@[q]).id == x implies exists|m: int|
                            0 <= m < old0.len() && old0[m] == rest@[q] by {
                            if q < j {
                                assert(old0[q] == rest@[q]);
                            } else {
                                assert(old0[q + 1] == rest@[q]);
                            }
                        }
                    } else {
                        assert forall|q: int| 0 <= q < rest@.len() implies (#[trigger] rest@[q]).id != x by {
                            let q0 = if q < j { q } else { q + 1 };
                            assert(rest@[q] == old0[q0]);
                            assert(q0 != j);
                        }
                    }
                }
            }
            let mut tunes: Vec<VolumeTune> = Vec::new();
            if !f.kind.needs_restart(&kind, &mut tunes) {
                proof {
                    assert(tunes@ =~= kind_tunes(old0[j as int].kind, kind));
                }
                Running { id, kind: f.kind, fresh: false, tunes }
            } else {
                Running { id, kind, fresh: true, tunes: Vec::new() }
            }
        },
        None => Running { id, kind, fresh: true, tunes: Vec::new() },
    };
    let ghost e0 = e;
    let ghost mut pos: int = 0;
    match find_running(made, id) {
        Some(k) => {
            made.set(k, e);
            proof {
                pos = k as int;
            }
        },
        None => {
            made.push(e);
            proof {
                pos = made@.len() - 1;
            }
        },
    }
    proof {
        assert forall|a: int, b: int| 0 <= a < b < made@.len() implies (#[trigger] made@[a]).id != (
        #[trigger] made@[b]).id by {
            lemma_entry_of(new0, id);
            if a < new0.len() && b < new0.len() {
                if made@[a] == e0 {
                    assert(new0[b].id != id || b == a);
                } else if made@[b] == e0 {
                    assert(new0[a].id != id || b == a);
                }
            }
        }
        assert forall|x: u128| x != id implies #[trigger] entry_of(made@, x) == entry_of(new0, x) by {
            lemma_entry_of(new0, x);
            lemma_entry_of(made@, x);
            assert forall|m: int| 0 <= m < new0.len() && (#[trigger] new0[m]).id == x implies made@[m] == new0[m] by {
                if made@[m] != new0[m] {
                    assert(made@[m] == e0);
                }
            }
            assert forall|m: int| 0 <= m < made@.len() && (#[trigger] made@[m]).id == x implies m < new0.len() && made@[m] == new0[m] by {
                if m >= new0.len() || made@[m] != new0[m] {
                    assert(made@[m] == e0);
                }
            }
        }
        assert(made@[pos] == e0);
        lemma_entry_of(made@, id);
    }
}

/// Points appended after the first `i` leave what those see unchanged.
proof fn lemma_prefix_stable(ps: Seq<Point>, qs: Seq<Point>, i: int)
    requires
        0 <= i <= ps.len(),
    ensures
        ports_before(ps + qs, i as nat) == ports_before(ps, i as nat),
        (ps + qs).take(i) == ps.take(i),
    decreases i,
{
    assert((ps + qs).take(i) =~= ps.take(i));
    if i > 0 {
        lemma_prefix_stable(ps, qs, i - 1);
        assert((ps + qs)[i - 1] == ps[i - 1]);
    }
}

/// Taking ports in two runs takes them in one.
proof fn lemma_ports_after_add(p: u16, a: nat, b: nat)
    ensures
        ports_after(p, a + b) == ports_after(ports_after(p, a), b),
    decreases b,
{
    if b > 0 {
        lemma_ports_after_add(p, a, (b - 1) as nat);
        assert(a + b - 1 == a + (b - 1));
    }
}

/// The last point that needs a process for an ID is one, at an index of
/// the points.
pub(crate) proof fn lemma_last_active(ps: Seq<Point>, id: u128)
    ensures
        last_active(ps, id) matches Some(i) ==> 0 <= i < ps.len() && point_active(ps[i]) && point_id(
            ps[i],
        ) == id,
    decreases ps.len(),
{
    if ps.len() > 0 && !(point_active(ps.last()) && point_id(ps.last()) == id) {
        lemma_last_active(ps.drop_last(), id);
    }
}

/// No process serves any ID in an empty pool.
proof fn lemma_entry_of_empty(id: u128)
    ensures
        entry_of(Seq::<Running>::empty(), id) is None,
{
    crate::restreamer::merge::lemma_first_where_none(Seq::<Running>::empty(), running_id_is(id));
}

/// Going through one more point keeps what went before: a point that needs
/// no process changes nothing, and one that does has its need taken.
proof fn lemma_step(
    old0: Seq<Running>,
    ps: Seq<Point>,
    p: Point,
    rest: Seq<Running>,
    made: Seq<Running>,
    rest2: Seq<Running>,
    made2: Seq<Running>,
    root: Seq<char>,
    latest0: u16,
    latest: u16,
    k: Option<RestreamerKind>,
)
    requires
        went_through(old0, ps, rest, made, root, latest0, latest),
        point_active(p) ==> (k matches Some(kk) && demands(
            p,
            kk,
            root,
            kind_of(entry_of(rest, point_id(p))),
            latest,
        ) && took(rest, made, rest2, made2, point_id(p), kk)),
        !point_active(p) ==> rest2 == rest && made2 == made && point_ports(p) == 0,
    ensures
        went_through(old0, ps.push(p), rest2, made2, root, latest0, ports_after(latest, point_ports(p))),
{
    let qs = ps.push(p);
    let n = ps.len();
    assert(qs.drop_last() =~= ps);
    assert(qs.take(n as int) =~= ps);
    assert(qs == ps + seq![p]);
    lemma_prefix_stable(ps, seq![p], n as int);
    lemma_ports_after_add(latest0, ports_before(ps, n), point_ports(p));
    assert(ports_before(qs, qs.len()) == ports_before(ps, n) + point_ports(p));
    assert forall|i: int| 0 <= i < n implies found_at(old0, qs, i) == found_at(old0, ps, i)
        && ports_before(qs, i as nat) == ports_before(ps, i as nat) by {
        lemma_prefix_stable(ps, seq![p], i);
        assert(qs[i] == ps[i]);
    }
    if point_active(p) {
        let kk = k->Some_0;
        let id = point_id(p);
        assert forall|x: u128| #[trigger] entry_of(rest2, x) == if last_active(qs, x) is Some {
            None
        } else {
            entry_of(old0, x)
        } by {
            assert(entry_of(rest, x) == if last_active(ps, x) is Some {
                None
            } else {
                entry_of(old0, x)
            });
        }
        assert forall|x: u128|
            match #[trigger] last_active(qs, x) {
                None => entry_of(made2, x) is None,
                Some(i) => entry_of(made2, x) matches Some(e) && settled(
                    e,
                    qs[i],
                    found_at(old0, qs, i),
                    root,
                    ports_after(latest0, ports_before(qs, i as nat)),
                ),
            } by {
            let _ = last_active(ps, x);
            lemma_last_active(ps, x);
            if x == id {
                let e = entry_of(made2, id)->Some_0;
                assert(found_at(old0, qs, n as int) == entry_of(rest, id));
                assert(demands(p, kk, root, kind_of(entry_of(rest, id)), latest));
                assert(settled(e, qs[n as int], found_at(old0, qs, n as int), root, latest));
            }
        }
    } else {
        assert forall|x: u128| #[trigger] entry_of(rest2, x) == if last_active(qs, x) is Some {
            None
        } else {
            entry_of(old0, x)
        } by {
            assert(entry_of(rest, x) == if last_active(ps, x) is Some {
                None
            } else {
                entry_of(old0, x)
            });
        }
        assert forall|x: u128|
            match #[trigger] last_active(qs, x) {
                None => entry_of(made2, x) is None,
                Some(i) => entry_of(made2, x) matches Some(e) && settled(
                    e,
                    qs[i],
                    found_at(old0, qs, i),
                    root,
                    ports_after(latest0, ports_before(qs, i as nat)),
                ),
            } by {
            let _ = last_active(ps, x);
            lemma_last_active(ps, x);
        }
    }
}

/// An endpoint has a process exactly when it needs one.
proof fn lemma_input_kind_needs(res: Option<RestreamerKind>, i: Input, e: InputEndpoint, key: Seq<char>)
    requires
        input_kind(res, i, e, key),
    ensures
        res is Some <==> endpoint_needs(i, e),
{
}

/// Takes the need of the given endpoint of the given input.
fn settle_endpoint(
    rest: &mut Vec<Running>,
    made: &mut Vec<Running>,
    key: &RestreamKey,
    input: &Input,
    endpoint: &InputEndpoint,
    Ghost(old0): Ghost<Seq<Running>>,
    Ghost(ps): Ghost<Seq<Point>>,
    Ghost(root): Ghost<Seq<char>>,
    Ghost(latest0): Ghost<u16>,
    latest: u16,
)
    requires
        went_through(old0, ps, old(rest)@, old(made)@, root, latest0, latest),
    ensures
        went_through(
            old0,
            ps.push(Point::Endpoint(key.view(), *input, *endpoint)),
            final(rest)@,
            final(made)@,
            root,
            latest0,
            latest,
        ),
{
    let ghost rest0 = rest@;
    let ghost made0 = made@;
    let ghost p = Point::Endpoint(key.view(), *input, *endpoint);
    let k = RestreamerKind::from_input(input, endpoint, key);
    proof {
        lemma_input_kind_needs(k, *input, *endpoint, key.view());
    }
    match k {
        Some(kind) => {
            settle(rest, made, endpoint.id.0, kind);
            proof {
                lemma_step(old0, ps, p, rest0, made0, rest@, made@, root, latest0, latest, Some(kind));
            }
        },
        None => {
            proof {
                lemma_step(old0, ps, p, rest0, made0, rest@, made@, root, latest0, latest, None);
            }
        },
    }
}

/// Takes the need of the given output, fed from `from`.
fn settle_output(
    rest: &mut Vec<Running>,
    made: &mut Vec<Running>,
    from: &str,
    output: &Output,
    storage: &Storage,
    latest: &mut u16,
    Ghost(old0): Ghost<Seq<Running>>,
    Ghost(ps): Ghost<Seq<Point>>,
    Ghost(latest0): Ghost<u16>,
)
    requires
        absolute(storage.root_path@),
        went_through(old0, ps, old(rest)@, old(made)@, storage.root_path@, latest0, *old(latest)),
    ensures
        went_through(
            old0,
            ps.push(Point::Output(from@, *output)),
            final(rest)@,
            final(made)@,
            storage.root_path@,
            latest0,
            *final(latest),
        ),
{
    let ghost rest0 = rest@;
    let ghost made0 = made@;
    let ghost l0 = *latest;
    let ghost p = Point::Output(from@, *output);
    let prev: Option<&RestreamerKind> = match find_running(rest, output.id.0) {
        Some(j) => Some(&rest[j].kind),
        None => None,
    };
    assert(crate::restreamer::ffmpeg::deref_opt(prev) == kind_of(entry_of(rest0, output.id.0)));
    let k = RestreamerKind::from_output(output, from, storage, prev, latest);
    match k {
        Some(kind) => {
            settle(rest, made, output.id.0, kind);
            proof {
                lemma_step(old0, ps, p, rest0, made0, rest@, made@, storage.root_path@, latest0, l0, Some(kind));
            }
        },
        None => {
            proof {
                lemma_step(old0, ps, p, rest0, made0, rest@, made@, storage.root_path@, latest0, l0, None);
            }
        },
    }
}

/// Takes the needs of the given input: those of its failover inputs, in
/// order and in depth, then those of its endpoints.
fn apply_input(
    rest: &mut Vec<Running>,
    made: &mut Vec<Running>,
    key: &RestreamKey,
    input: &Input,
    Ghost(old0): Ghost<Seq<Running>>,
    Ghost(ps): Ghost<Seq<Point>>,
    Ghost(root): Ghost<Seq<char>>,
    Ghost(latest0): Ghost<u16>,
    latest: u16,
)
    requires
        went_through(old0, ps, old(rest)@, old(made)@, root, latest0, latest),
    ensures
        went_through(old0, ps + input_points(key.view(), *input), final(rest)@, final(made)@, root, latest0, latest),
    decreases *input,
{
    let ghost failover = failover_points(key.view(), *input);
    match &input.src {
        Some(InputSrc::Failover(f)) => {
            let mut k: usize = 0;
            assert(f.inputs@.take(0) =~= Seq::<Input>::empty());
            assert(ps + inputs_points(key.view(), f.inputs@.take(0)) =~= ps);
            while k < f.inputs.len()
                invariant
                    k <= f.inputs@.len(),
                    input.src == Some(InputSrc::Failover(*f)),
                    went_through(
                        old0,
                        ps + inputs_points(key.view(), f.inputs@.take(k as int)),
                        rest@,
                        made@,
                        root,
                        latest0,
                        latest,
                    ),
                decreases f.inputs@.len() - k,
            {
                proof {
                    assert(decreases_to!(*input => input.src));
                    let os = input.src->Some_0;
                    assert(decreases_to!(input.src => os));
                    assert(decreases_to!(os => os->Failover_0));
                    assert(decreases_to!(os->Failover_0 => f.inputs));
                    assert(decreases_to!(f.inputs => f.inputs@));
                    assert(decreases_to!(f.inputs@ => f.inputs@[k as int]));
                }
                apply_input(
                    rest,
                    made,
                    key,
                    &f.inputs[k],
                    Ghost(old0),
                    Ghost(ps + inputs_points(key.view(), f.inputs@.take(k as int))),
                    Ghost(root),
                    Ghost(latest0),
                    latest,
                );
                proof {
                    let t = f.inputs@.take(k + 1);
                    assert(t.subrange(0, t.len() - 1) =~= f.inputs@.take(k as int));
                    assert(t[t.len() - 1] == f.inputs@[k as int]);
                    assert(ps + inputs_points(key.view(), f.inputs@.take(k as int)) + input_points(
                        key.view(),
                        f.inputs@[k as int],
                    ) =~= ps + inputs_points(key.view(), t));
                }
                k = k + 1;
            }
            assert(f.inputs@.take(k as int) =~= f.inputs@);
        },
        _ => {
            assert(ps + Seq::<Point>::empty() =~= ps);
        },
    }
    let ghost mid = ps + failover;
    let mut m: usize = 0;
    assert(mid + endpoint_points(key.view(), *input, input.endpoints@.take(0)) =~= mid);
    while m < input.endpoints.len()
        invariant
            m <= input.endpoints@.len(),
            mid == ps + failover,
            went_through(
                old0,
                mid + endpoint_points(key.view(), *input, input.endpoints@.take(m as int)),
                rest@,
                made@,
                root,
                latest0,
                latest,
            ),
        decreases input.endpoints@.len() - m,
    {
        settle_endpoint(
            rest,
            made,
            key,
            input,
            &input.endpoints[m],
            Ghost(old0),
            Ghost(mid + endpoint_points(key.view(), *input, input.endpoints@.take(m as int))),
            Ghost(root),
            Ghost(latest0),
            latest,
        );
        proof {
            assert((mid + endpoint_points(key.view(), *input, input.endpoints@.take(m as int))).push(
                Point::Endpoint(key.view(), *input, input.endpoints@[m as int]),
            ) =~= mid + endpoint_points(key.view(), *input, input.endpoints@.take(m + 1)));
        }
        m = m + 1;
    }
    proof {
        assert(input.endpoints@.take(m as int) =~= input.endpoints@);
        assert(mid + endpoint_points(key.view(), *input, input.endpoints@) =~= ps + input_points(
            key.view(),
            *input,
        ));
    }
}

/// Whether one of the endpoints is an RTMP one.
fn has_rtmp(es: &Vec<InputEndpoint>) -> (res: bool)
    ensures
        res == exists|m: int| 0 <= m < es@.len() && (#[trigger] es@[m]).kind == InputEndpointKind::Rtmp,
{
    let mut m: usize = 0;
    while m < es.len()
        invariant
            m <= es@.len(),
            forall|q: int| 0 <= q < m ==> (#[trigger] es@[q]).kind != InputEndpointKind::Rtmp,
        decreases es@.len() - m,
    {
        if es[m].kind == InputEndpointKind::Rtmp {
            return true;
        }
        m = m + 1;
    }
    false
}

impl Pool {
    /// An empty pool.
    pub fn new() -> (res: Pool)
        ensures
            res.running@.len() == 0,
            ids_unique(res.running@),
    {
        Pool { running: Vec::new() }
    }

    /// Whether the given re-streams can be applied: the main input of each
    /// one that feeds its outputs has an RTMP endpoint.
    pub fn can_apply(restreams: &Vec<Restream>) -> (res: bool)
        ensures
            res == mains_have_rtmp(restreams@),
    {
        let mut k: usize = 0;
        while k < restreams.len()
            invariant
                k <= restreams@.len(),
                forall|q: int|
                    0 <= q < k && (#[trigger] restreams@[q]).input.enabled && ready_to_serve(
                        restreams@[q].input,
                    ) ==> exists|m: int|
                        0 <= m < restreams@[q].input.endpoints@.len()
                            && (#[trigger] restreams@[q].input.endpoints@[m]).kind
                            == InputEndpointKind::Rtmp,
            decreases restreams@.len() - k,
        {
            let r = &restreams[k];
            if r.input.enabled && r.input.is_ready_to_serve() && !has_rtmp(&r.input.endpoints) {
                return false;
            }
            k = k + 1;
        }
        true
    }

    /// Brings this pool to what the given re-streams need, with recordings
    /// kept in `storage` and new ports taken from `latest`.
    ///
    /// The re-streams are gone through in order: for each, the endpoints of
    /// its input (those of its failover inputs first, in depth), then, once
    /// its input is enabled and ready to serve, its outputs, fed from the
    /// main input. For each ID, the last one that needs a process has it: the
    /// running process of that ID carries on, tuned in place, if the new one
    /// needs no restart of it; otherwise the new one is to be started.
    /// Running processes that no one needs are dropped.
    pub fn apply(&mut self, restreams: &Vec<Restream>, storage: &Storage, latest: &mut u16)
        requires
            ids_unique(old(self).running@),
            absolute(storage.root_path@),
            mains_have_rtmp(restreams@),
        ensures
            pool_after(
                old(self).running@,
                points(restreams@, restreams@.len()),
                final(self).running@,
                storage.root_path@,
                *old(latest),
            ),
            *final(latest) == ports_after(
                *old(latest),
                ports_before(
                    points(restreams@, restreams@.len()),
                    points(restreams@, restreams@.len()).len(),
                ),
            ),
            FIRST_ZMQ_PORT <= *old(latest) ==> FIRST_ZMQ_PORT <= *final(latest),
    {
        let ghost old0 = self.running@;
        let ghost latest0 = *latest;
        let ghost root = storage.root_path@;
        let mut rest: Vec<Running> = Vec::new();
        std::mem::swap(&mut rest, &mut self.running);
        let mut made: Vec<Running> = Vec::new();
        proof {
            assert forall|x: u128| #[trigger] entry_of(rest@, x) == if last_active(
                Seq::<Point>::empty(),
                x,
            ) is Some {
                None
            } else {
                entry_of(old0, x)
            } by {}
            assert forall|x: u128|
                match #[trigger] last_active(Seq::<Point>::empty(), x) {
                    None => entry_of(made@, x) is None,
                    Some(i) => entry_of(made@, x) matches Some(e) && settled(
                        e,
                        Seq::<Point>::empty()[i],
                        found_at(old0, Seq::<Point>::empty(), i),
                        root,
                        ports_after(latest0, ports_before(Seq::<Point>::empty(), i as nat)),
                    ),
                } by {
                lemma_entry_of_empty(x);
                assert(made@ =~= Seq::<Running>::empty());
            }
            assert(went_through(old0, points(restreams@, 0), rest@, made@, root, latest0, *latest));
        }
        let mut j: usize = 0;
        while j < restreams.len()
            invariant
                j <= restreams@.len(),
                absolute(storage.root_path@),
                root == storage.root_path@,
                went_through(old0, points(restreams@, j as nat), rest@, made@, root, latest0, *latest),
            decreases restreams@.len() - j,
        {
            let r = &restreams[j];
            let ghost before = points(restreams@, j as nat);
            apply_input(
                &mut rest,
                &mut made,
                &r.key,
                &r.input,
                Ghost(old0),
                Ghost(before),
                Ghost(root),
                Ghost(latest0),
                *latest,
            );
            let ghost after_input = before + input_points(r.key.view(), r.input);
            if r.input.enabled && r.input.is_ready_to_serve() {
                let from = InputEndpointKind::Rtmp.rtmp_url_text(&r.key, &r.input.key);
                let ghost outs = output_points(*r);
                let mut m: usize = 0;
                assert(after_input + outs.take(0) =~= after_input);
                while m < r.outputs.len()
                    invariant
                        m <= r.outputs@.len(),
                        absolute(storage.root_path@),
                        root == storage.root_path@,
                        outs == output_points(*r),
                        from@ == rtmp_url_text(InputEndpointKind::Rtmp, r.key.view(), r.input.key.view()),
                        went_through(old0, after_input + outs.take(m as int), rest@, made@, root, latest0, *latest),
                    decreases r.outputs@.len() - m,
                {
                    settle_output(
                        &mut rest,
                        &mut made,
                        from.as_str(),
                        &r.outputs[m],
                        storage,
                        latest,
                        Ghost(old0),
                        Ghost(after_input + outs.take(m as int)),
                        Ghost(latest0),
                    );
                    proof {
                        assert((after_input + outs.take(m as int)).push(
                            Point::Output(from@, r.outputs@[m as int]),
                        ) =~= after_input + outs.take(m + 1));
                    }
                    m = m + 1;
                }
                proof {
                    assert(outs.take(m as int) =~= outs);
                    assert(after_input + outs =~= points(restreams@, (j + 1) as nat));
                }
            } else {
                proof {
                    assert(after_input =~= points(restreams@, (j + 1) as nat));
                }
            }
            j = j + 1;
        }
        self.running = made;
        proof {
            if FIRST_ZMQ_PORT <= latest0 {
                lemma_ports_stay_in_range(
                    latest0,
                    ports_before(
                        points(restreams@, restreams@.len()),
                        points(restreams@, restreams@.len()).len(),
                    ),
                );
            }
        }
    }
}

} // verus!

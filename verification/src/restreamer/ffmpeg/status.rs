//! Statuses that the FFmpeg processes report into the state: a process
//! serves an output or an input endpoint of the same ID.

use vstd::prelude::*;

use crate::restreamer::ffmpeg::RestreamerKind;
use crate::restreamer::state::{Input, InputEndpoint, InputSrc, Output, Restream, State, Status};

verus! {

/// Whether one of the endpoints has the given ID.
pub open spec fn has_endpoint(es: Seq<InputEndpoint>, id: u128) -> bool {
    exists|m: int| 0 <= m < es.len() && (#[trigger] es[m]).id.0 == id
}

/// Whether the input, or one of its failover inputs in depth, has an
/// endpoint with the given ID.
pub open spec fn input_has(o: Input, id: u128) -> bool
    decreases o,
{
    ||| has_endpoint(o.endpoints@, id)
    ||| match o.src {
        Some(InputSrc::Failover(f)) => inputs_have(f.inputs@, id),
        _ => false,
    }
}

/// Whether one of the inputs has an endpoint with the given ID, in depth.
pub open spec fn inputs_have(os: Seq<Input>, id: u128) -> bool
    decreases os,
{
    &&& os.len() > 0
    &&& {
        ||| inputs_have(os.subrange(0, os.len() - 1), id)
        ||| input_has(os[os.len() - 1], id)
    }
}

/// Whether the endpoint `x` is `e` with the given status.
pub open spec fn endpoint_renewed(x: InputEndpoint, e: InputEndpoint, status: Status) -> bool {
    &&& x.id == e.id
    &&& x.kind == e.kind
    &&& x.status == status
    &&& x.srs_publisher_id == e.srs_publisher_id
    &&& x.srs_player_ids == e.srs_player_ids
}

/// Index of the first endpoint with the given ID.
pub open spec fn first_endpoint(es: Seq<InputEndpoint>, id: u128) -> int {
    choose|m: int|
        0 <= m < es.len() && (#[trigger] es[m]).id.0 == id && forall|q: int|
            0 <= q < m ==> (#[trigger] es[q]).id.0 != id
}

/// Whether the endpoints `xs` are `es` with the status of the first one of
/// the given ID set.
pub open spec fn endpoints_renewed(xs: Seq<InputEndpoint>, es: Seq<InputEndpoint>, id: u128, status: Status) -> bool {
    let m = first_endpoint(es, id);
    &&& xs.len() == es.len()
    &&& 0 <= m < es.len()
    &&& es[m].id.0 == id
    &&& forall|q: int| 0 <= q < m ==> (#[trigger] es[q]).id.0 != id
    &&& endpoint_renewed(xs[m], es[m], status)
    &&& forall|q: int| 0 <= q < es.len() && q != m ==> #[trigger] xs[q] == es[q]
}

/// Whether the input `x` is `o` with the status of its first endpoint of
/// the given ID set: its own endpoints come first, then its failover
/// inputs, in order and in depth.
pub open spec fn input_renewed(x: Input, o: Input, id: u128, status: Status) -> bool
    decreases o,
{
    &&& x.id == o.id
    &&& x.key == o.key
    &&& x.enabled == o.enabled
    &&& if has_endpoint(o.endpoints@, id) {
        &&& endpoints_renewed(x.endpoints@, o.endpoints@, id, status)
        &&& x.src == o.src
    } else {
        &&& x.endpoints == o.endpoints
        &&& match o.src {
            Some(InputSrc::Failover(f)) => {
                &&& x.src matches Some(InputSrc::Failover(g))
                &&& inputs_renewed(g.inputs@, f.inputs@, id, status)
            },
            _ => x.src == o.src,
        }
    }
}

/// Whether the inputs `xs` are `os` with the status of the first endpoint
/// of the given ID set, in order and in depth; those without it stay.
pub open spec fn inputs_renewed(xs: Seq<Input>, os: Seq<Input>, id: u128, status: Status) -> bool
    decreases os,
{
    &&& xs.len() == os.len()
    &&& os.len() > 0 ==> {
        let n = os.len() - 1;
        if inputs_have(os.subrange(0, n), id) {
            &&& inputs_renewed(xs.drop_last(), os.subrange(0, n), id, status)
            &&& xs.last() == os[n]
        } else {
            &&& xs.drop_last() == os.subrange(0, n)
            &&& input_renewed(xs.last(), os[n], id, status)
        }
    }
}

/// Index of the first endpoint with the given ID, if any.
fn find_endpoint(es: &Vec<InputEndpoint>, id: u128) -> (res: Option<usize>)
    ensures
        match res {
            Some(m) => m < es@.len() && es@[m as int].id.0 == id && forall|q: int|
                0 <= q < m ==> (#[trigger] es@[q]).id.0 != id,
            None => !has_endpoint(es@, id),
        },
{
    let mut m: usize = 0;
    while m < es.len()
        invariant
            m <= es@.len(),
            forall|q: int| 0 <= q < m ==> (#[trigger] es@[q]).id.0 != id,
        decreases es@.len() - m,
    {
        if es[m].id.0 == id {
            return Some(m);
        }
        m = m + 1;
    }
    None
}

/// Whether the input, or one of its failover inputs in depth, has an
/// endpoint with the given ID.
fn has_id(input: &Input, id: u128) -> (res: bool)
    ensures
        res == input_has(*input, id),
    decreases *input,
{
    if find_endpoint(&input.endpoints, id).is_some() {
        return true;
    }
    match &input.src {
        Some(InputSrc::Failover(f)) => {
            let mut k: usize = 0;
            while k < f.inputs.len()
                invariant
                    k <= f.inputs@.len(),
                    input.src == Some(InputSrc::Failover(*f)),
                    !inputs_have(f.inputs@.take(k as int), id),
                decreases f.inputs@.len() - k,
            {
                proof {
                    assert(decreases_to!(*input => input.src));
                    let os = input.src->Some_0;
                    assert(decreases_to!(input.src => os));
                    assert(decreases_to!(os => os->Failover_0));
                    assert(decreases_to!(os->Failover_0 => f.inputs));
                    assert(decreases_to!(f.inputs => f.inputs@));
                    assert(decreases_to!(f.inputs@ => f.inputs@[k as int]));
                }
                let ghost pre = f.inputs@.take(k + 1);
                assert(pre.subrange(0, pre.len() - 1) =~= f.inputs@.take(k as int));
                if has_id(&f.inputs[k], id) {
                    proof {
                        lemma_inputs_have_prefix(f.inputs@, k + 1, id);
                    }
                    return true;
                }
                k = k + 1;
            }
            assert(f.inputs@.take(k as int) =~= f.inputs@);
            false
        },
        _ => false,
    }
}

/// An ID that a prefix of the inputs has, all of them have.
proof fn lemma_inputs_have_prefix(os: Seq<Input>, n: int, id: u128)
    requires
        0 <= n <= os.len(),
        inputs_have(os.take(n), id),
    ensures
        inputs_have(os, id),
    decreases os.len() - n,
{
    if n < os.len() {
        let t = os.take(n + 1);
        assert(t.subrange(0, t.len() - 1) =~= os.take(n));
        lemma_inputs_have_prefix(os, n + 1, id);
    } else {
        assert(os.take(n) =~= os);
    }
}

/// Sets the status of the first endpoint with the given ID of the input, in
/// depth; returns whether there is one, leaving the input as it is if not.
fn renew_input(input: &mut Input, id: u128, status: Status) -> (res: bool)
    ensures
        res == input_has(*old(input), id),
        res ==> input_renewed(*final(input), *old(input), id, status),
        !res ==> *final(input) == *old(input),
    decreases *old(input),
{
    if !has_id(input, id) {
        return false;
    }
    let ghost o = *input;
    match find_endpoint(&input.endpoints, id) {
        Some(m) => {
            input.endpoints[m].status = status;
            proof {
                assert(first_endpoint(o.endpoints@, id) == m) by {
                    let c = first_endpoint(o.endpoints@, id);
                    assert(o.endpoints@[m as int].id.0 == id);
                    if c < m {
                        assert(o.endpoints@[c].id.0 != id);
                    } else if c > m {
                        assert(o.endpoints@[m as int].id.0 != id);
                    }
                }
            }
            return true;
        },
        None => {},
    }
    match input.src.take() {
        Some(InputSrc::Failover(mut f)) => {
            let ghost f0 = f;
            let mut k: usize = 0;
            while k < f.inputs.len()
                invariant
                    k <= f.inputs@.len(),
                    f == f0,
                    o == *old(input),
                    input.id == o.id,
                    input.key == o.key,
                    input.enabled == o.enabled,
                    input.endpoints == o.endpoints,
                    o.src == Some(InputSrc::Failover(f0)),
                    input_has(o, id),
                    !has_endpoint(o.endpoints@, id),
                    !inputs_have(f0.inputs@.take(k as int), id),
                decreases f.inputs@.len() - k,
            {
                let ghost pre = f0.inputs@.take(k + 1);
                assert(pre.subrange(0, pre.len() - 1) =~= f0.inputs@.take(k as int));
                if has_id(&f.inputs[k], id) {
                    proof {
                        assert(decreases_to!(o => o.src));
                        let os = o.src->Some_0;
                        assert(decreases_to!(o.src => os));
                        assert(os->Failover_0 == f0);
                        assert(decreases_to!(os => os->Failover_0));
                        assert(decreases_to!(f0 => f0.inputs));
                        assert(decreases_to!(f0.inputs => f0.inputs@));
                        assert(decreases_to!(f0.inputs@ => f0.inputs@[k as int]));
                    }
                    renew_input(&mut f.inputs[k], id, status);
                    proof {
                        lemma_renewed_at(f.inputs@, f0.inputs@, k as int, id, status);
                    }
                    input.src = Some(InputSrc::Failover(f));
                    return true;
                }
                k = k + 1;
            }
            proof {
                assert(f0.inputs@.take(k as int) =~= f0.inputs@);
            }
            input.src = Some(InputSrc::Failover(f));
            false
        },
        other => {
            input.src = other;
            false
        },
    }
}

/// Inputs renewed at the first one that has the ID are renewed as a whole.
proof fn lemma_renewed_at(xs: Seq<Input>, os: Seq<Input>, k: int, id: u128, status: Status)
    requires
        0 <= k < os.len(),
        xs.len() == os.len(),
        !inputs_have(os.take(k), id),
        input_has(os[k], id),
        input_renewed(xs[k], os[k], id, status),
        forall|q: int| 0 <= q < os.len() && q != k ==> #[trigger] xs[q] == os[q],
    ensures
        inputs_renewed(xs, os, id, status),
        inputs_have(os, id),
    decreases os.len(),
{
    let n = os.len() - 1;
    if k == n {
        assert(os.subrange(0, n) =~= os.take(k));
        assert(xs.drop_last() =~= os.subrange(0, n));
    } else {
        assert(os.subrange(0, n).take(k) =~= os.take(k));
        assert forall|q: int| 0 <= q < n && q != k implies #[trigger] xs.drop_last()[q] == os.subrange(0, n)[q] by {
            assert(xs[q] == os[q]);
        }
        lemma_renewed_at(xs.drop_last(), os.subrange(0, n), k, id, status);
        assert(xs.last() == os[n]);
    }
}

/// Property of an output of having the given ID.
pub open spec fn output_has_id(id: u128) -> spec_fn(Output) -> bool {
    |o: Output| o.id.0 == id
}

/// Whether the re-stream takes the status for the given ID: an output of
/// it has the ID, or, for any status but online, an endpoint of its input.
pub open spec fn takes_status(r: Restream, id: u128, status: Status) -> bool {
    ||| exists|k: int| 0 <= k < r.outputs@.len() && (#[trigger] r.outputs@[k]).id.0 == id
    ||| (status != Status::Online && input_has(r.input, id))
}

/// Whether the output `x` is `o` with the given status.
pub open spec fn output_renewed(x: Output, o: Output, status: Status) -> bool {
    &&& x.id == o.id
    &&& x.dst == o.dst
    &&& x.label == o.label
    &&& x.volume == o.volume
    &&& x.mixins == o.mixins
    &&& x.enabled == o.enabled
    &&& x.status == status
}

/// Whether the re-stream `x` is `r` with the status for the given ID set:
/// on its first output of the ID, if any, else on its input.
pub open spec fn restream_renewed(x: Restream, r: Restream, id: u128, status: Status) -> bool {
    &&& x.id == r.id
    &&& x.key == r.key
    &&& x.label == r.label
    &&& if exists|k: int| 0 <= k < r.outputs@.len() && (#[trigger] r.outputs@[k]).id.0 == id {
        let k = choose|k: int|
            0 <= k < r.outputs@.len() && (#[trigger] r.outputs@[k]).id.0 == id && forall|q: int|
                0 <= q < k ==> (#[trigger] r.outputs@[q]).id.0 != id;
        &&& x.input == r.input
        &&& x.outputs@.len() == r.outputs@.len()
        &&& output_renewed(x.outputs@[k], r.outputs@[k], status)
        &&& forall|q: int| 0 <= q < r.outputs@.len() && q != k ==> #[trigger] x.outputs@[q] == r.outputs@[q]
    } else {
        &&& x.outputs == r.outputs
        &&& input_renewed(x.input, r.input, id, status)
    }
}

/// Whether the re-streams `xs` are `rs` with the status for the given ID
/// set in the first re-stream that takes it; the others stay.
pub open spec fn restreams_renewed(xs: Seq<Restream>, rs: Seq<Restream>, id: u128, status: Status) -> bool {
    &&& xs.len() == rs.len()
    &&& match crate::restreamer::merge::first_where(rs, taking(id, status)) {
        Some(j) => {
            &&& restream_renewed(xs[j], rs[j], id, status)
            &&& forall|q: int| 0 <= q < rs.len() && q != j ==> #[trigger] xs[q] == rs[q]
        },
        None => xs == rs,
    }
}

/// Property of a re-stream of taking the status for the given ID.
pub open spec fn taking(id: u128, status: Status) -> spec_fn(Restream) -> bool {
    |r: Restream| takes_status(r, id, status)
}

impl State {
    /// Sets the status reported by the process serving the given ID: on the
    /// first output of that ID of the first re-stream having one, else (for
    /// any status but online, which SRS reports for inputs) on the first
    /// endpoint of that ID of its input, in depth. Re-streams are gone
    /// through in order, each checked for both before the next one.
    pub fn renew_status(&mut self, id: u128, status: Status)
        ensures
            restreams_renewed(final(self).restreams@, old(self).restreams@, id, status),
            final(self).password_hash == old(self).password_hash,
    {
        let ghost rs0 = self.restreams@;
        let ghost pw = self.password_hash;
        let mut j: usize = 0;
        while j < self.restreams.len()
            invariant
                j <= self.restreams@.len(),
                self.restreams@ == rs0,
                self.password_hash == pw,
                pw == old(self).password_hash,
                rs0 == old(self).restreams@,
                forall|q: int| 0 <= q < j ==> !takes_status(#[trigger] rs0[q], id, status),
            decreases self.restreams@.len() - j,
        {
            let mut k: usize = 0;
            while k < self.restreams[j].outputs.len()
                invariant
                    j < self.restreams@.len(),
                    k <= self.restreams@[j as int].outputs@.len(),
                    self.restreams@ == rs0,
                    self.password_hash == pw,
                    pw == old(self).password_hash,
                    rs0 == old(self).restreams@,
                    forall|q: int| 0 <= q < j ==> !takes_status(#[trigger] rs0[q], id, status),
                    forall|q: int| 0 <= q < k ==> (#[trigger] rs0[j as int].outputs@[q]).id.0 != id,
                decreases self.restreams@[j as int].outputs@.len() - k,
            {
                if self.restreams[j].outputs[k].id.0 == id {
                    self.restreams[j].outputs[k].status = status;
                    proof {
                        let r = rs0[j as int];
                        let c = choose|c: int|
                            0 <= c < r.outputs@.len() && (#[trigger] r.outputs@[c]).id.0 == id && forall|q: int|
                                0 <= q < c ==> (#[trigger] r.outputs@[q]).id.0 != id;
                        assert(r.outputs@[k as int].id.0 == id);
                        if c < k {
                            assert(r.outputs@[c].id.0 != id);
                        } else if c > k {
                            assert(r.outputs@[k as int].id.0 != id);
                        }
                        assert(takes_status(r, id, status));
                        assert forall|q: int| 0 <= q < j implies !taking(id, status)(#[trigger] rs0[q]) by {}
                        crate::restreamer::merge::lemma_first_where(rs0, taking(id, status), j as int);
                    }
                    return;
                }
                k = k + 1;
            }
            let ghost no_output = forall|q: int|
                0 <= q < rs0[j as int].outputs@.len() ==> (#[trigger] rs0[j as int].outputs@[q]).id.0 != id;
            assert(no_output);
            if status != Status::Online {
                let found = renew_input(&mut self.restreams[j].input, id, status);
                if found {
                    proof {
                        assert(takes_status(rs0[j as int], id, status));
                        assert(restream_renewed(self.restreams@[j as int], rs0[j as int], id, status));
                        assert forall|q: int| 0 <= q < j implies !taking(id, status)(#[trigger] rs0[q]) by {}
                        crate::restreamer::merge::lemma_first_where(rs0, taking(id, status), j as int);
                        assert(forall|q: int| 0 <= q < rs0.len() && q != j ==> #[trigger] self.restreams@[q] == rs0[q]);
                    }
                    return;
                }
                proof {
                    assert(self.restreams@ =~= rs0);
                }
            }
            j = j + 1;
        }
        proof {
            assert forall|q: int| 0 <= q < rs0.len() implies !taking(id, status)(#[trigger] rs0[q]) by {}
            crate::restreamer::merge::lemma_first_where_none(rs0, taking(id, status));
        }
    }
}

impl RestreamerKind {
    /// Sets the status that this process reports in the state: on the
    /// output or the input endpoint that it serves.
    pub fn renew_status(&self, status: Status, state: &mut State)
        ensures
            restreams_renewed(final(state).restreams@, old(state).restreams@, crate::restreamer::ffmpeg::kind_id(*self), status),
            final(state).password_hash == old(state).password_hash,
    {
        state.renew_status(self.id(), status);
    }
}

} // verus!

//! Inputs of a re-stream: their endpoints and the sources that they pull a
//! live stream from.

use vstd::prelude::*;

use crate::restreamer::merge::{
    first_match, lemma_first_match, lemma_replace_plan, lemma_replace_plan_prefix, merge_replace,
    replace_merged, replace_plan, Mergeable,
};
use crate::restreamer::spec::v1 as spec;
use crate::restreamer::state::{ClientId, EndpointId, InputEndpointKind, InputId, InputKey, InputSrcUrl, Status};

verus! {

/// Endpoint of an [`Input`] serving a live stream for outputs and clients.
#[derive(Debug)]
pub struct InputEndpoint {
    /// Unique ID of this endpoint; it never changes.
    pub id: EndpointId,
    /// Kind of this endpoint.
    pub kind: InputEndpointKind,
    /// Whether this endpoint actually serves a live stream.
    pub status: Status,
    /// SRS client publishing a live stream to this endpoint, if any.
    pub srs_publisher_id: Option<ClientId>,
    /// SRS clients playing a live stream from this endpoint.
    pub srs_player_ids: Vec<ClientId>,
}

impl InputEndpoint {
    /// Creates a new endpoint out of its specification: offline, with a new
    /// ID and no clients.
    pub fn new(spec: spec::InputEndpoint) -> (res: InputEndpoint)
        ensures
            res.made(spec),
    {
        InputEndpoint {
            id: EndpointId::random(),
            kind: spec.kind,
            status: Status::Offline,
            srs_publisher_id: None,
            srs_player_ids: Vec::new(),
        }
    }

    /// Applies the given specification to this endpoint: only its kind
    /// changes.
    pub fn apply(&mut self, new: spec::InputEndpoint)
        ensures
            final(self).updated(*old(self), new, true),
    {
        self.kind = new.kind;
    }

    /// Exports this endpoint as its specification.
    pub fn export(&self) -> (res: spec::InputEndpoint)
        ensures
            res.kind == self.kind,
    {
        spec::InputEndpoint { kind: self.kind }
    }

    /// Whether this endpoint is an RTMP one.
    pub fn is_rtmp(&self) -> (res: bool)
        ensures
            res == (self.kind == InputEndpointKind::Rtmp),
    {
        match self.kind {
            InputEndpointKind::Rtmp => true,
            InputEndpointKind::Hls => false,
        }
    }
}

impl Mergeable for InputEndpoint {
    type Spec = spec::InputEndpoint;

    /// An endpoint is described by a specification of its kind.
    open spec fn matched_by(self, s: spec::InputEndpoint) -> bool {
        self.kind == s.kind
    }

    /// Only the kind comes from the specification.
    open spec fn updated(self, old: InputEndpoint, s: spec::InputEndpoint, replace: bool) -> bool {
        &&& self.kind == s.kind
        &&& self.id == old.id
        &&& self.status == old.status
        &&& self.srs_publisher_id == old.srs_publisher_id
        &&& self.srs_player_ids == old.srs_player_ids
    }

    /// A new endpoint is offline and has no clients.
    open spec fn made(self, s: spec::InputEndpoint) -> bool {
        &&& self.kind == s.kind
        &&& self.status == Status::Offline
        &&& self.srs_publisher_id is None
        &&& self.srs_player_ids@.len() == 0
    }

    fn matches(&self, s: &spec::InputEndpoint) -> (res: bool) {
        self.kind == s.kind
    }

    fn update(&mut self, s: spec::InputEndpoint, replace: bool) {
        self.apply(s);
    }

    fn make(s: spec::InputEndpoint) -> (res: InputEndpoint) {
        InputEndpoint::new(s)
    }
}

impl Mergeable for InputKey {
    type Spec = InputKey;

    /// Keys are the same when their texts are.
    open spec fn matched_by(self, s: InputKey) -> bool {
        self.view() == s.view()
    }

    open spec fn updated(self, old: InputKey, s: InputKey, replace: bool) -> bool {
        self == s
    }

    open spec fn made(self, s: InputKey) -> bool {
        self == s
    }

    fn matches(&self, s: &InputKey) -> (res: bool) {
        self.same(s)
    }

    fn update(&mut self, s: InputKey, replace: bool) {
        *self = s;
    }

    fn make(s: InputKey) -> (res: InputKey) {
        s
    }
}

/// Whether the endpoint `x` is the endpoint `o` with its publisher and its
/// players kicked.
pub open spec fn endpoint_kicked(x: InputEndpoint, o: InputEndpoint) -> bool {
    &&& x.id == o.id
    &&& x.kind == o.kind
    &&& x.status == o.status
    &&& x.srs_publisher_id is None
    &&& x.srs_player_ids@.len() == 0
}

/// Whether the endpoints `xs` are the endpoints `os` with their publishers
/// and players kicked.
pub open spec fn endpoints_kicked(xs: Seq<InputEndpoint>, os: Seq<InputEndpoint>) -> bool {
    &&& xs.len() == os.len()
    &&& forall|m: int| 0 <= m < xs.len() ==> endpoint_kicked(#[trigger] xs[m], os[m])
}

/// Kicks the publishers and the players of all the given endpoints.
fn kick_all(endpoints: &mut Vec<InputEndpoint>)
    ensures
        endpoints_kicked(final(endpoints)@, old(endpoints)@),
{
    let ghost olds = endpoints@;
    let mut k: usize = 0;
    while k < endpoints.len()
        invariant
            k <= endpoints@.len(),
            endpoints@.len() == olds.len(),
            forall|m: int| 0 <= m < k ==> endpoint_kicked(#[trigger] endpoints@[m], olds[m]),
            forall|m: int| k <= m < endpoints@.len() ==> #[trigger] endpoints@[m] == olds[m],
        decreases endpoints@.len() - k,
    {
        endpoints[k].srs_publisher_id = None;
        endpoints[k].srs_player_ids.clear();
        k = k + 1;
    }
}

/// Upstream source that a re-stream receives a live stream from.
#[derive(Debug)]
pub struct Input {
    /// Unique ID of this input; it never changes.
    pub id: InputId,
    /// Key of this input, forming its endpoints' URLs.
    pub key: InputKey,
    /// Endpoints of this input.
    pub endpoints: Vec<InputEndpoint>,
    /// Source to pull a live stream from; none when the stream is pushed.
    pub src: Option<InputSrc>,
    /// Whether this input is allowed to receive a live stream.
    pub enabled: bool,
}

/// Source to pull a live stream by an [`Input`] from.
#[derive(Debug)]
pub enum InputSrc {
    /// A remote endpoint.
    Remote(RemoteInputSrc),
    /// Local inputs forming a failover source.
    Failover(FailoverInputSrc),
}

/// Remote upstream source to pull a live stream from.
#[derive(Debug)]
pub struct RemoteInputSrc {
    /// URL of this source.
    pub url: InputSrcUrl,
}

/// Failover source of inputs: the first one that serves a live stream is
/// pulled from, falling back to the next one, and so on.
#[derive(Debug)]
pub struct FailoverInputSrc {
    /// Inputs of this source, in order of preference.
    pub inputs: Vec<Input>,
}

/// Whether the input `i` is made of the specification `s`: same key,
/// endpoints made of the specified ones, a source made of the specified one,
/// and the same `enabled`.
pub open spec fn input_from(i: Input, s: spec::Input) -> bool
    decreases s,
{
    &&& i.key == s.key
    &&& i.enabled == s.enabled
    &&& i.endpoints@.len() == s.endpoints@.len()
    &&& forall|m: int|
        0 <= m < i.endpoints@.len() ==> (#[trigger] i.endpoints@[m]).made(s.endpoints@[m])
    &&& match s.src {
        None => i.src is None,
        Some(ns) => src_from(i.src, ns),
    }
}

/// Whether the source `x` is made of the specification `s`.
pub open spec fn src_from(x: Option<InputSrc>, s: spec::InputSrc) -> bool
    decreases s,
{
    match (x, s) {
        (Some(InputSrc::Remote(r)), spec::InputSrc::RemoteUrl(u)) => r.url == u,
        (Some(InputSrc::Failover(f)), spec::InputSrc::FailoverInputs(v)) => inputs_from(
            f.inputs@,
            v@,
        ),
        _ => false,
    }
}

/// Whether the inputs `is` are made of the specifications `ss`, one by one.
pub open spec fn inputs_from(is: Seq<Input>, ss: Seq<spec::Input>) -> bool
    decreases ss,
{
    &&& is.len() == ss.len()
    &&& ss.len() > 0 ==> {
        &&& inputs_from(is.drop_last(), ss.subrange(0, ss.len() - 1))
        &&& input_from(is.last(), ss[ss.len() - 1])
    }
}

impl InputSrc {
    /// Creates a new source out of its specification, with new IDs.
    pub fn new(spec: spec::InputSrc) -> (res: InputSrc)
        ensures
            src_from(Some(res), spec),
        decreases spec,
    {
        let ghost s0 = spec;
        match spec {
            spec::InputSrc::RemoteUrl(url) => InputSrc::Remote(RemoteInputSrc { url }),
            spec::InputSrc::FailoverInputs(inputs) => {
                let ghost all = inputs@;
                let mut rest = inputs;
                let mut news: Vec<Input> = Vec::new();
                while rest.len() > 0
                    invariant
                        news@.len() <= all.len(),
                        rest@ == all.skip(news@.len() as int),
                        inputs_from(news@, all.take(news@.len() as int)),
                        s0 == spec::InputSrc::FailoverInputs(inputs),
                        s0 == spec,
                        all == inputs@,
                    decreases rest@.len(),
                {
                    let ghost n = news@.len() as int;
                    let next = rest.remove(0);
                    assert(next == all[n]);
                    proof {
                        let v = s0->FailoverInputs_0;
                        assert(v == inputs);
                        assert(decreases_to!(s0 => v));
                        assert(decreases_to!(v => v@));
                        assert(decreases_to!(v@ => v@[n]));
                        assert(decreases_to!(spec => next));
                    }
                    let x = Input::new(next);
                    let ghost news0 = news@;
                    news.push(x);
                    proof {
                        let pre = all.take(n + 1);
                        assert(pre.subrange(0, pre.len() - 1) =~= all.take(n));
                        assert(news@.drop_last() =~= news0);
                        assert(rest@ =~= all.skip(n + 1));
                    }
                }
                proof {
                    assert(all.take(news@.len() as int) =~= all);
                }
                InputSrc::Failover(FailoverInputSrc { inputs: news })
            },
        }
    }
}

impl Input {
    /// Creates a new input out of its specification, with new IDs.
    pub fn new(spec: spec::Input) -> (res: Input)
        ensures
            input_from(res, spec),
        decreases spec,
    {
        let ghost s0 = spec;
        let spec::Input { key, endpoints, src, enabled } = spec;
        let mut eps: Vec<InputEndpoint> = Vec::new();
        let mut k: usize = 0;
        while k < endpoints.len()
            invariant
                k <= endpoints@.len(),
                eps@.len() == k,
                forall|m: int|
                    0 <= m < k ==> (#[trigger] eps@[m]).made(endpoints@[m]),
            decreases endpoints@.len() - k,
        {
            eps.push(InputEndpoint::new(endpoints[k]));
            k = k + 1;
        }
        let new_src = match src {
            None => None,
            Some(s) => {
                proof {
                    assert(decreases_to!(s0 => s0.src));
                    assert(decreases_to!(s0.src => s));
                }
                Some(InputSrc::new(s))
            },
        };
        Input { id: InputId::random(), key, endpoints: eps, src: new_src, enabled }
    }
}

/// Whether the specification `s` is an export of the input `i`: the same
/// texts, kinds and flags.
pub open spec fn input_exported(s: spec::Input, i: Input) -> bool
    decreases i,
{
    &&& s.key.view() == i.key.view()
    &&& s.enabled == i.enabled
    &&& s.endpoints@.len() == i.endpoints@.len()
    &&& forall|m: int|
        0 <= m < s.endpoints@.len() ==> (#[trigger] s.endpoints@[m]).kind == i.endpoints@[m].kind
    &&& match i.src {
        None => s.src is None,
        Some(x) => src_exported(s.src, x),
    }
}

/// Whether the specification `s` is an export of the source `x`.
pub open spec fn src_exported(s: Option<spec::InputSrc>, x: InputSrc) -> bool
    decreases x,
{
    match (s, x) {
        (Some(spec::InputSrc::RemoteUrl(u)), InputSrc::Remote(r)) => u.view() == r.url.view(),
        (Some(spec::InputSrc::FailoverInputs(v)), InputSrc::Failover(f)) => inputs_exported(
            v@,
            f.inputs@,
        ),
        _ => false,
    }
}

/// Whether the specifications `ss` are exports of the inputs `is`, one by
/// one.
pub open spec fn inputs_exported(ss: Seq<spec::Input>, is: Seq<Input>) -> bool
    decreases is,
{
    &&& ss.len() == is.len()
    &&& is.len() > 0 ==> {
        &&& inputs_exported(ss.drop_last(), is.subrange(0, is.len() - 1))
        &&& input_exported(ss.last(), is[is.len() - 1])
    }
}

impl InputSrc {
    /// Exports this source as its specification.
    pub fn export(&self) -> (res: spec::InputSrc)
        ensures
            src_exported(Some(res), *self),
        decreases self,
    {
        match self {
            InputSrc::Remote(r) => spec::InputSrc::RemoteUrl(r.url.clone()),
            InputSrc::Failover(f) => {
                let mut out: Vec<spec::Input> = Vec::new();
                let mut k: usize = 0;
                while k < f.inputs.len()
                    invariant
                        k <= f.inputs@.len(),
                        out@.len() == k,
                        inputs_exported(out@, f.inputs@.take(k as int)),
                        *self == InputSrc::Failover(*f),
                    decreases f.inputs@.len() - k,
                {
                    proof {
                        assert(*f == self->Failover_0);
                        assert(decreases_to!(*self => self->Failover_0));
                        assert(decreases_to!(*f => f.inputs));
                        assert(decreases_to!(f.inputs => f.inputs@));
                        assert(decreases_to!(f.inputs@ => f.inputs@[k as int]));
                    }
                    let x = f.inputs[k].export();
                    let ghost out0 = out@;
                    out.push(x);
                    proof {
                        let pre = f.inputs@.take(k + 1);
                        assert(pre.subrange(0, pre.len() - 1) =~= f.inputs@.take(k as int));
                        assert(out@.drop_last() =~= out0);
                    }
                    k = k + 1;
                }
                proof {
                    assert(f.inputs@.take(k as int) =~= f.inputs@);
                }
                spec::InputSrc::FailoverInputs(out)
            },
        }
    }
}

impl Input {
    /// Exports this input as its specification.
    pub fn export(&self) -> (res: spec::Input)
        ensures
            input_exported(res, *self),
        decreases self,
    {
        let mut eps: Vec<spec::InputEndpoint> = Vec::new();
        let mut k: usize = 0;
        while k < self.endpoints.len()
            invariant
                k <= self.endpoints@.len(),
                eps@.len() == k,
                forall|m: int|
                    0 <= m < k ==> (#[trigger] eps@[m]).kind == self.endpoints@[m].kind,
            decreases self.endpoints@.len() - k,
        {
            eps.push(self.endpoints[k].export());
            k = k + 1;
        }
        let src = match &self.src {
            None => None,
            Some(x) => {
                proof {
                    assert(decreases_to!(*self => self.src));
                }
                Some(x.export())
            },
        };
        spec::Input { key: self.key.clone(), endpoints: eps, src, enabled: self.enabled }
    }
}

/// Whether applying the specification `s` to the input `o` kicks the
/// publishers and the players of its endpoints: when its key changes, when it
/// is disabled, or when it switches between pushing and pulling.
pub open spec fn kicks(o: Input, s: spec::Input) -> bool {
    ||| o.key.view() != s.key.view()
    ||| !s.enabled
    ||| (o.src is None) != (s.src is None)
}

/// Plan of the merge by replacement of the failover inputs `olds` with the
/// specifications `news`, by their keys.
pub open spec fn input_plan(olds: Seq<Input>, news: Seq<spec::Input>) -> (Seq<Option<int>>, Seq<int>) {
    replace_plan(olds.map_values(|i: Input| i.key), news.map_values(|s: spec::Input| s.key))
}

/// Whether the input `x` is the input `o` after applying the specification
/// `s`: same ID and `enabled`, the specified key, the endpoints (kicked if
/// [`kicks`] says so) merged by replacement with the specified ones, and the
/// source updated by the specified one, made of it, or dropped.
pub open spec fn input_applied(x: Input, o: Input, s: spec::Input) -> bool
    decreases s, 0int,
{
    &&& x.id == o.id
    &&& x.key == s.key
    &&& x.enabled == o.enabled
    &&& exists|kicked: Seq<InputEndpoint>|
        {
            &&& (if kicks(o, s) {
                endpoints_kicked(kicked, o.endpoints@)
            } else {
                kicked == o.endpoints@
            })
            &&& replace_merged(kicked, s.endpoints@, x.endpoints@)
        }
    &&& match s.src {
        None => x.src is None,
        Some(ns) => match o.src {
            Some(os) => x.src matches Some(xs) && src_updated(xs, os, ns),
            None => src_from(x.src, ns),
        },
    }
}

/// Whether the source `x` is the source `o` after applying the specification
/// `s`: a remote one gets the specified URL, failover inputs are merged by
/// replacement with the specified ones, and a source of another kind is made
/// anew.
pub open spec fn src_updated(x: InputSrc, o: InputSrc, s: spec::InputSrc) -> bool
    decreases s, 0int,
{
    match (o, s) {
        (InputSrc::Remote(_), spec::InputSrc::RemoteUrl(u)) => x == InputSrc::Remote(
            RemoteInputSrc { url: u },
        ),
        (InputSrc::Failover(f), spec::InputSrc::FailoverInputs(v)) => {
            &&& x matches InputSrc::Failover(g)
            &&& g.inputs@.len() == v@.len()
            &&& inputs_updated(g.inputs@, f.inputs@, v@, v@.len() as int)
        },
        (_, n) => src_from(Some(x), n),
    }
}

/// Whether the first `k` of the inputs `res` are the result of the merge by
/// replacement of the inputs `olds` with the specifications `news`.
pub open spec fn inputs_updated(res: Seq<Input>, olds: Seq<Input>, news: Seq<spec::Input>, k: int) -> bool
    decreases news, k,
{
    if k <= 0 || k > news.len() {
        true
    } else {
        &&& inputs_updated(res, olds, news, k - 1)
        &&& match input_plan(olds, news).0[k - 1] {
            Some(j) => input_applied(res[k - 1], olds[j], news[k - 1]),
            None => input_from(res[k - 1], news[k - 1]),
        }
    }
}

/// [`inputs_updated`] depends only on the first `k` inputs.
proof fn lemma_inputs_updated_prefix(
    r1: Seq<Input>,
    r2: Seq<Input>,
    olds: Seq<Input>,
    news: Seq<spec::Input>,
    k: int,
)
    requires
        inputs_updated(r1, olds, news, k),
        k <= r1.len(),
        k <= r2.len(),
        forall|m: int| 0 <= m < k ==> r1[m] == r2[m],
    ensures
        inputs_updated(r2, olds, news, k),
    decreases k,
{
    if k > 0 && k <= news.len() {
        lemma_inputs_updated_prefix(r1, r2, olds, news, k - 1);
        assert(r1[k - 1] == r2[k - 1]);
    }
}

/// Finds the first of the inputs `xs` with the given key.
fn find_input(xs: &Vec<Input>, key: &InputKey) -> (res: Option<usize>)
    ensures
        match res {
            Some(j) => first_match(xs@.map_values(|i: Input| i.key), *key) == Some(j as int),
            None => first_match(xs@.map_values(|i: Input| i.key), *key) is None,
        },
{
    let ghost keys = xs@.map_values(|i: Input| i.key);
    let mut k: usize = 0;
    while k < xs.len()
        invariant
            k <= xs@.len(),
            keys == xs@.map_values(|i: Input| i.key),
            forall|m: int| 0 <= m < k ==> !(#[trigger] keys[m]).matched_by(*key),
        decreases xs@.len() - k,
    {
        if xs[k].key.same(key) {
            proof {
                lemma_first_match(keys, *key, k as int);
            }
            return Some(k);
        }
        k = k + 1;
    }
    assert forall|j: int| !crate::restreamer::merge::is_first_match(keys, *key, j) by {
        if 0 <= j < keys.len() {
            assert(!keys[j].matched_by(*key));
        }
    }
    None
}

/// Merges the failover inputs `olds` with the specifications `news` by
/// replacement.
fn merge_inputs(olds: Vec<Input>, news: Vec<spec::Input>) -> (res: Vec<Input>)
    ensures
        res@.len() == news@.len(),
        inputs_updated(res@, olds@, news@, news@.len() as int),
    decreases news,
{
    let ghost news0 = news;
    let ghost olds0 = olds@;
    let ghost all = news@;
    let ghost okeys = olds0.map_values(|i: Input| i.key);
    let ghost nkeys = all.map_values(|s: spec::Input| s.key);
    let mut olds = olds;
    let mut rest = news;
    let mut res: Vec<Input> = Vec::new();
    proof {
        assert(nkeys.take(0) =~= Seq::<InputKey>::empty());
        assert(olds@ =~= replace_plan(okeys, nkeys.take(0)).1.map_values(|j: int| olds0[j]));
    }
    while rest.len() > 0
        invariant
            res@.len() <= all.len(),
            rest@ == all.skip(res@.len() as int),
            news0@ == all,
            news0 == news,
            okeys == olds0.map_values(|i: Input| i.key),
            nkeys == all.map_values(|s: spec::Input| s.key),
            olds@ == replace_plan(okeys, nkeys.take(res@.len() as int)).1.map_values(
                |j: int| olds0[j],
            ),
            inputs_updated(res@, olds0, all, res@.len() as int),
        decreases rest@.len(),
    {
        let ghost i = res@.len() as int;
        let ghost prev = replace_plan(okeys, nkeys.take(i));
        let ghost pre = nkeys.take(i + 1);
        proof {
            assert(pre.drop_last() =~= nkeys.take(i));
            lemma_replace_plan(okeys, nkeys.take(i));
            lemma_replace_plan(okeys, pre);
            lemma_replace_plan_prefix(okeys, nkeys, i + 1);
            lemma_replace_plan(okeys, nkeys);
        }
        let n = rest.remove(0);
        assert(n == all[i]);
        assert(pre.last() == n.key);
        proof {
            assert(decreases_to!(news0 => news0@));
            assert(decreases_to!(news0@ => news0@[i]));
            assert(decreases_to!(news => n));
        }
        let ghost res0 = res@;
        let ghost olds_now = olds@;
        assert(olds_now.map_values(|x: Input| x.key) =~= prev.1.map_values(|j: int| okeys[j]));
        match find_input(&olds, &n.key) {
            Some(p) => {
                let mut x = olds.swap_remove(p);
                assert(x == olds0[prev.1[p as int]]);
                x.apply(n);
                res.push(x);
                proof {
                    let rem = prev.1;
                    assert(olds@ =~= rem.update(p as int, rem.last()).drop_last().map_values(
                        |j: int| olds0[j],
                    ));
                }
            },
            None => {
                res.push(Input::new(n));
            },
        }
        proof {
            assert(replace_plan(okeys, pre).0[i] == input_plan(olds0, all).0[i]);
            lemma_inputs_updated_prefix(res0, res@, olds0, all, i);
            assert(rest@ =~= all.skip(res@.len() as int));
        }
    }
    proof {
        assert(all.skip(res@.len() as int).len() == 0);
    }
    res
}

impl InputSrc {
    /// Applies the given specification to this source: a remote source gets
    /// the new URL, failover inputs are merged by replacement with the new
    /// ones, and a source of another kind is made anew.
    pub fn apply(&mut self, new: spec::InputSrc)
        ensures
            src_updated(*final(self), *old(self), new),
        decreases new,
    {
        let ghost s0 = new;
        let mut cur = InputSrc::Failover(FailoverInputSrc { inputs: Vec::new() });
        std::mem::swap(&mut cur, self);
        let res = match cur {
            InputSrc::Remote(r) => match new {
                spec::InputSrc::RemoteUrl(url) => InputSrc::Remote(RemoteInputSrc { url }),
                n => InputSrc::new(n),
            },
            InputSrc::Failover(f) => match new {
                spec::InputSrc::FailoverInputs(news) => {
                    proof {
                        assert(news == s0->FailoverInputs_0);
                        assert(decreases_to!(s0 => s0->FailoverInputs_0));
                    }
                    InputSrc::Failover(FailoverInputSrc { inputs: merge_inputs(f.inputs, news) })
                },
                n => InputSrc::new(n),
            },
        };
        *self = res;
    }
}

impl Input {
    /// Applies the given specification to this input; its `enabled` is kept
    /// as it is, so that ongoing re-streams are not broken.
    pub fn apply(&mut self, new: spec::Input)
        ensures
            input_applied(*final(self), *old(self), new),
        decreases new,
    {
        let ghost s0 = new;
        let kick = !self.key.same(&new.key) || !new.enabled || self.src.is_none()
            != new.src.is_none();
        let ghost o = *self;
        if kick {
            kick_all(&mut self.endpoints);
        }
        let ghost kicked = self.endpoints@;
        let spec::Input { key, endpoints, src, enabled: _ } = new;
        self.key = key;
        let mut olds: Vec<InputEndpoint> = Vec::new();
        std::mem::swap(&mut olds, &mut self.endpoints);
        self.endpoints = merge_replace(olds, endpoints);
        match src {
            None => {
                self.src = None;
            },
            Some(ns) => {
                proof {
                    assert(decreases_to!(s0 => s0.src));
                    assert(decreases_to!(s0.src => ns));
                }
                match self.src.take() {
                    Some(mut os) => {
                        os.apply(ns);
                        self.src = Some(os);
                    },
                    None => {
                        self.src = Some(InputSrc::new(ns));
                    },
                }
            },
        }
        proof {
            assert(kicks(o, s0) == kick);
            assert(replace_merged(kicked, s0.endpoints@, self.endpoints@));
        }
    }
}

/// Whether the input `x` is the input `o` switched on or off: it and all its
/// failover inputs get `enabled == on`, and switching off also kicks the
/// publishers and the players of their endpoints.
pub open spec fn input_switched(x: Input, o: Input, on: bool) -> bool
    decreases o,
{
    &&& x.id == o.id
    &&& x.key == o.key
    &&& x.enabled == on
    &&& if on {
        x.endpoints == o.endpoints
    } else {
        endpoints_kicked(x.endpoints@, o.endpoints@)
    }
    &&& match o.src {
        Some(InputSrc::Failover(f)) => {
            &&& x.src matches Some(InputSrc::Failover(g))
            &&& inputs_switched(g.inputs@, f.inputs@, on)
        },
        _ => x.src == o.src,
    }
}

/// Whether the inputs `xs` are the inputs `os` switched on or off, one by
/// one.
pub open spec fn inputs_switched(xs: Seq<Input>, os: Seq<Input>, on: bool) -> bool
    decreases os,
{
    &&& xs.len() == os.len()
    &&& os.len() > 0 ==> {
        &&& inputs_switched(xs.drop_last(), os.subrange(0, os.len() - 1), on)
        &&& input_switched(xs.last(), os[os.len() - 1], on)
    }
}

/// Whether switching the input `o` on or off changes the `enabled` of it or
/// of one of its failover inputs.
pub open spec fn switch_changes(o: Input, on: bool) -> bool
    decreases o,
{
    ||| o.enabled != on
    ||| match o.src {
        Some(InputSrc::Failover(f)) => switch_changes_any(f.inputs@, on),
        _ => false,
    }
}

/// Whether switching the inputs `os` on or off changes the `enabled` of one
/// of them or of one of their failover inputs.
pub open spec fn switch_changes_any(os: Seq<Input>, on: bool) -> bool
    decreases os,
{
    &&& os.len() > 0
    &&& {
        ||| switch_changes_any(os.subrange(0, os.len() - 1), on)
        ||| switch_changes(os[os.len() - 1], on)
    }
}

impl Input {
    /// Switches this input and all its failover inputs on or off; returns
    /// whether the `enabled` of one of them has changed.
    fn switch(&mut self, on: bool) -> (changed: bool)
        ensures
            input_switched(*final(self), *old(self), on),
            changed == switch_changes(*old(self), on),
        decreases *old(self),
    {
        let ghost o = *self;
        let mut changed = self.enabled != on;
        self.enabled = on;
        if !on {
            kick_all(&mut self.endpoints);
        }
        match self.src.take() {
            Some(InputSrc::Failover(mut f)) => {
                let ghost f0 = f;
                let mut k: usize = 0;
                while k < f.inputs.len()
                    invariant
                        k <= f.inputs@.len(),
                        f.inputs@.len() == f0.inputs@.len(),
                        o == *old(self),
                        o.src == Some(InputSrc::Failover(f0)),
                        forall|m: int|
                            k <= m < f.inputs@.len() ==> #[trigger] f.inputs@[m] == f0.inputs@[m],
                        inputs_switched(f.inputs@.take(k as int), f0.inputs@.take(k as int), on),
                        changed == (o.enabled != on || switch_changes_any(
                            f0.inputs@.take(k as int),
                            on,
                        )),
                    decreases f.inputs@.len() - k,
                {
                    proof {
                        assert(decreases_to!(o => o.src));
                        let os = o.src->Some_0;
                        assert(decreases_to!(o.src => os));
                        assert(decreases_to!(os => os->Failover_0));
                        assert(os->Failover_0 == f0);
                        assert(decreases_to!(f0 => f0.inputs));
                        assert(decreases_to!(f0.inputs => f0.inputs@));
                        assert(decreases_to!(f0.inputs@ => f0.inputs@[k as int]));
                    }
                    let ghost xs0 = f.inputs@;
                    let c = f.inputs[k].switch(on);
                    changed = changed || c;
                    proof {
                        let pre = f0.inputs@.take(k + 1);
                        assert(pre.subrange(0, pre.len() - 1) =~= f0.inputs@.take(k as int));
                        assert(f.inputs@.take(k + 1).drop_last() =~= xs0.take(k as int));
                    }
                    k = k + 1;
                }
                proof {
                    assert(f.inputs@.take(k as int) =~= f.inputs@);
                    assert(f0.inputs@.take(k as int) =~= f0.inputs@);
                }
                self.src = Some(InputSrc::Failover(f));
            },
            other => {
                self.src = other;
            },
        }
        changed
    }

    /// Enables this input and all its failover inputs; returns `false` if
    /// all of them have been enabled already.
    pub fn enable(&mut self) -> (changed: bool)
        ensures
            input_switched(*final(self), *old(self), true),
            changed == switch_changes(*old(self), true),
    {
        self.switch(true)
    }

    /// Disables this input and all its failover inputs, kicking the
    /// publishers and the players of their endpoints; returns `false` if all
    /// of them have been disabled already.
    pub fn disable(&mut self) -> (changed: bool)
        ensures
            input_switched(*final(self), *old(self), false),
            changed == switch_changes(*old(self), false),
    {
        self.switch(false)
    }
}

/// The input with the given ID: the input `o` itself, or the first one
/// found among its failover inputs, in order and in depth.
pub open spec fn input_find(o: Input, id: InputId) -> Option<Input>
    decreases o,
{
    if o.id == id {
        Some(o)
    } else {
        match o.src {
            Some(InputSrc::Failover(f)) => inputs_find(f.inputs@, id),
            _ => None,
        }
    }
}

/// The first input with the given ID among the inputs `os`, in order and
/// in depth.
pub open spec fn inputs_find(os: Seq<Input>, id: InputId) -> Option<Input>
    decreases os,
{
    if os.len() == 0 {
        None
    } else {
        match inputs_find(os.subrange(0, os.len() - 1), id) {
            Some(x) => Some(x),
            None => input_find(os[os.len() - 1], id),
        }
    }
}

/// Whether the input `x` is the input `o` with the input that
/// [`input_find`] finds by `id` switched on or off, and nothing else
/// changed.
pub open spec fn input_switched_at(x: Input, o: Input, id: InputId, on: bool) -> bool
    decreases o,
{
    if o.id == id {
        input_switched(x, o, on)
    } else {
        &&& x.id == o.id
        &&& x.key == o.key
        &&& x.enabled == o.enabled
        &&& x.endpoints == o.endpoints
        &&& match o.src {
            Some(InputSrc::Failover(f)) => {
                &&& x.src matches Some(InputSrc::Failover(g))
                &&& inputs_switched_at(g.inputs@, f.inputs@, id, on)
            },
            _ => x.src == o.src,
        }
    }
}

/// Whether the inputs `xs` are the inputs `os` with the input that
/// [`inputs_find`] finds by `id` switched on or off, and nothing else
/// changed.
pub open spec fn inputs_switched_at(xs: Seq<Input>, os: Seq<Input>, id: InputId, on: bool) -> bool
    decreases os,
{
    &&& xs.len() == os.len()
    &&& os.len() > 0 ==> {
        let oh = os.subrange(0, os.len() - 1);
        &&& inputs_switched_at(xs.drop_last(), oh, id, on)
        &&& if inputs_find(oh, id) is Some {
            xs.last() == os[os.len() - 1]
        } else {
            input_switched_at(xs.last(), os[os.len() - 1], id, on)
        }
    }
}

/// Once the input with the given ID is found among the first `k` inputs,
/// the inputs after them are left as they are.
proof fn lemma_switched_at_rest(xs: Seq<Input>, os: Seq<Input>, k: int, id: InputId, on: bool)
    requires
        0 <= k <= os.len(),
        xs.len() == os.len(),
        inputs_switched_at(xs.take(k), os.take(k), id, on),
        inputs_find(os.take(k), id) is Some,
        forall|m: int| k <= m < os.len() ==> xs[m] == os[m],
    ensures
        inputs_switched_at(xs, os, id, on),
        inputs_find(os, id) == inputs_find(os.take(k), id),
    decreases os.len(),
{
    if k == os.len() {
        assert(xs.take(k) =~= xs);
        assert(os.take(k) =~= os);
    } else {
        let oh = os.subrange(0, os.len() - 1);
        let xh = xs.drop_last();
        assert(oh.take(k) =~= os.take(k));
        assert(xh.take(k) =~= xs.take(k));
        lemma_switched_at_rest(xh, oh, k, id, on);
    }
}

/// The inputs found among the first `k + 1` inputs are those found among the
/// first `k`, or else the one found in the `k`-th input.
proof fn lemma_find_step(os: Seq<Input>, k: int, id: InputId)
    requires
        0 <= k < os.len(),
    ensures
        inputs_find(os.take(k + 1), id) == match inputs_find(os.take(k), id) {
            Some(x) => Some(x),
            None => input_find(os[k], id),
        },
{
    let pre = os.take(k + 1);
    assert(pre.subrange(0, pre.len() - 1) =~= os.take(k));
}

impl Input {
    /// Switches on or off the input with the given ID: this input, or the
    /// first one found among its failover inputs, in order and in depth.
    /// Returns whether the `enabled` of it or of one of its failover inputs
    /// has changed, or `None` if there is no such input.
    pub fn switch_input(&mut self, id: InputId, on: bool) -> (res: Option<bool>)
        ensures
            input_switched_at(*final(self), *old(self), id, on),
            match res {
                Some(b) => input_find(*old(self), id) matches Some(t) && b == switch_changes(t, on),
                None => input_find(*old(self), id) is None,
            },
        decreases *old(self),
    {
        let ghost o = *self;
        if self.id == id {
            return Some(self.switch(on));
        }
        match self.src.take() {
            Some(InputSrc::Failover(mut f)) => {
                let ghost f0 = f;
                let mut k: usize = 0;
                let mut res: Option<bool> = None;
                while k < f.inputs.len() && res.is_none()
                    invariant
                        k <= f.inputs@.len(),
                        f.inputs@.len() == f0.inputs@.len(),
                        o == *old(self),
                        o.src == Some(InputSrc::Failover(f0)),
                        o.id != id,
                        forall|m: int|
                            k <= m < f.inputs@.len() ==> #[trigger] f.inputs@[m] == f0.inputs@[m],
                        inputs_switched_at(f.inputs@.take(k as int), f0.inputs@.take(k as int), id, on),
                        res is None ==> inputs_find(f0.inputs@.take(k as int), id) is None,
                        res matches Some(b) ==> {
                            &&& inputs_find(f0.inputs@.take(k as int), id) matches Some(t)
                            &&& b == switch_changes(t, on)
                        },
                    decreases f.inputs@.len() - k,
                {
                    proof {
                        assert(decreases_to!(o => o.src));
                        let os = o.src->Some_0;
                        assert(decreases_to!(o.src => os));
                        assert(decreases_to!(os => os->Failover_0));
                        assert(os->Failover_0 == f0);
                        assert(decreases_to!(f0 => f0.inputs));
                        assert(decreases_to!(f0.inputs => f0.inputs@));
                        assert(decreases_to!(f0.inputs@ => f0.inputs@[k as int]));
                        lemma_find_step(f0.inputs@, k as int, id);
                    }
                    let ghost xs0 = f.inputs@;
                    res = f.inputs[k].switch_input(id, on);
                    proof {
                        let pre = f0.inputs@.take(k + 1);
                        assert(pre.subrange(0, pre.len() - 1) =~= f0.inputs@.take(k as int));
                        assert(f.inputs@.take(k + 1).drop_last() =~= xs0.take(k as int));
                    }
                    k = k + 1;
                }
                proof {
                    if res is Some {
                        lemma_switched_at_rest(f.inputs@, f0.inputs@, k as int, id, on);
                    } else {
                        assert(f0.inputs@.take(k as int) =~= f0.inputs@);
                        assert(f.inputs@.take(k as int) =~= f.inputs@);
                    }
                }
                self.src = Some(InputSrc::Failover(f));
                res
            },
            other => {
                self.src = other;
                None
            },
        }
    }

    /// Whether this input is ready to serve a live stream for outputs: one of
    /// its RTMP endpoints is online, or else one of the RTMP endpoints of one
    /// of its failover inputs is.
    pub fn is_ready_to_serve(&self) -> (res: bool)
        ensures
            res == ready_to_serve(*self),
    {
        if serves_rtmp(&self.endpoints) {
            return true;
        }
        match &self.src {
            Some(InputSrc::Failover(f)) => {
                let mut k: usize = 0;
                while k < f.inputs.len()
                    invariant
                        k <= f.inputs@.len(),
                        self.src == Some(InputSrc::Failover(*f)),
                        !online(self.endpoints@),
                        forall|m: int| 0 <= m < k ==> !online(#[trigger] f.inputs@[m].endpoints@),
                    decreases f.inputs@.len() - k,
                {
                    if serves_rtmp(&f.inputs[k].endpoints) {
                        assert(online(f.inputs@[k as int].endpoints@));
                        assert(self.src == Some(InputSrc::Failover(*f)));
                        assert(exists|j: int|
                            0 <= j < f.inputs@.len() && online(#[trigger] f.inputs@[j].endpoints@));
                        return true;
                    }
                    k = k + 1;
                }
                false
            },
            _ => false,
        }
    }
}

/// Whether one of the given endpoints is an online RTMP one.
pub open spec fn online(es: Seq<InputEndpoint>) -> bool {
    exists|m: int|
        0 <= m < es.len() && (#[trigger] es[m]).kind == InputEndpointKind::Rtmp && es[m].status
            == Status::Online
}

/// Whether the input `i` is ready to serve a live stream: one of its RTMP
/// endpoints is online, or else one of the RTMP endpoints of one of its
/// failover inputs is.
pub open spec fn ready_to_serve(i: Input) -> bool {
    ||| online(i.endpoints@)
    ||| match i.src {
        Some(InputSrc::Failover(f)) => exists|k: int|
            0 <= k < f.inputs@.len() && online(#[trigger] f.inputs@[k].endpoints@),
        _ => false,
    }
}

/// Whether one of the given endpoints is an online RTMP one.
pub(crate) fn serves_rtmp(es: &Vec<InputEndpoint>) -> (res: bool)
    ensures
        res == online(es@),
{
    let mut k: usize = 0;
    while k < es.len()
        invariant
            k <= es@.len(),
            forall|m: int|
                0 <= m < k ==> !((#[trigger] es@[m]).kind == InputEndpointKind::Rtmp
                    && es@[m].status == Status::Online),
        decreases es@.len() - k,
    {
        if es[k].is_rtmp() && es[k].status == Status::Online {
            return true;
        }
        k = k + 1;
    }
    false
}

/// Switching an input on (or off) a second time changes nothing: once
/// enabled, enabling again answers `false`, and so for disabling.
pub proof fn lemma_switch_twice(x: Input, o: Input, on: bool)
    requires
        input_switched(x, o, on),
    ensures
        !switch_changes(x, on),
    decreases o,
{
    if let Some(InputSrc::Failover(f)) = o.src {
        let g = x.src->Some_0->Failover_0;
        lemma_switch_twice_all(g.inputs@, f.inputs@, on);
    }
}

/// Switching inputs on (or off) a second time changes none of them.
pub proof fn lemma_switch_twice_all(xs: Seq<Input>, os: Seq<Input>, on: bool)
    requires
        inputs_switched(xs, os, on),
    ensures
        !switch_changes_any(xs, on),
    decreases os,
{
    if os.len() > 0 {
        lemma_switch_twice_all(xs.drop_last(), os.subrange(0, os.len() - 1), on);
        lemma_switch_twice(xs.last(), os[os.len() - 1], on);
        assert(xs.subrange(0, xs.len() - 1) =~= xs.drop_last());
    }
}

/// Exporting an input made of a specification gives back what the
/// specification says.
pub proof fn lemma_input_export_made(i: Input, s: spec::Input, t: spec::Input)
    requires
        input_from(i, s),
        input_exported(t, i),
    ensures
        spec::input_same(t, s),
    decreases s,
{
    match s.src {
        Some(spec::InputSrc::FailoverInputs(v)) => {
            let f = i.src->Some_0->Failover_0;
            let w = t.src->Some_0->FailoverInputs_0;
            lemma_inputs_export_made(f.inputs@, v@, w@);
        },
        _ => {},
    }
}

/// Exporting inputs made of specifications gives back what the
/// specifications say.
pub proof fn lemma_inputs_export_made(is: Seq<Input>, ss: Seq<spec::Input>, ts: Seq<spec::Input>)
    requires
        inputs_from(is, ss),
        inputs_exported(ts, is),
    ensures
        spec::inputs_same(ts, ss),
    decreases ss,
{
    if ss.len() > 0 {
        lemma_inputs_export_made(
            is.drop_last(),
            ss.subrange(0, ss.len() - 1),
            ts.drop_last(),
        );
        assert(is.subrange(0, is.len() - 1) =~= is.drop_last());
        lemma_input_export_made(is.last(), ss[ss.len() - 1], ts.last());
    }
}

} // verus!

//! Re-streams, and the whole re-streaming state with the rules by which it
//! changes.

use vstd::prelude::*;

use crate::restreamer::merge::{
    append_merged, first_where, is_first_where, lemma_first_where, lemma_first_where_none,
    lemma_replace_plan_empty, merge_append, merge_replace, replace_merged, replace_plan,
    Mergeable,
};
use crate::restreamer::spec;
use crate::restreamer::state::{
    clone_label, input_applied, input_exported, input_find, input_from, input_switched,
    input_switched_at, label_view, lemma_input_export_made, mixin_exported, output_exported,
    switch_changes, Delay, Input,
    InputEndpointKind, InputId, InputKey, Label, Mixin, MixinId, Output, OutputDstUrl, OutputId,
    RestreamId, RestreamKey, Volume,
};
use crate::text::push_str;
use crate::weburl::{parsed_url, WebUrl};

verus! {

/// Re-stream of a live stream from one [`Input`] to many [`Output`]s.
#[derive(Debug)]
pub struct Restream {
    /// Unique ID of this re-stream; it never changes.
    pub id: RestreamId,
    /// Unique key of this re-stream, forming its endpoints' URLs.
    pub key: RestreamKey,
    /// Label of this re-stream, if any.
    pub label: Option<Label>,
    /// Input that the live stream is received from.
    pub input: Input,
    /// Outputs that the live stream is re-streamed to.
    pub outputs: Vec<Output>,
}

/// Whether the outputs `os` are made of the specifications `ss`, one by one.
pub open spec fn outputs_made(os: Seq<Output>, ss: Seq<spec::v1::Output>) -> bool {
    &&& os.len() == ss.len()
    &&& forall|m: int| 0 <= m < os.len() ==> (#[trigger] os[m]).made(ss[m])
}

impl Mergeable for Restream {
    type Spec = spec::v1::Restream;

    /// A re-stream is described by a specification of its key.
    open spec fn matched_by(self, s: spec::v1::Restream) -> bool {
        self.key.view() == s.key.view()
    }

    /// The key and the label come from the specification, the input is
    /// updated by the specified one, and the outputs are merged with the
    /// specified ones.
    open spec fn updated(self, old: Restream, s: spec::v1::Restream, replace: bool) -> bool {
        &&& self.id == old.id
        &&& self.key == s.key
        &&& self.label == s.label
        &&& input_applied(self.input, old.input, s.input)
        &&& if replace {
            replace_merged(old.outputs@, s.outputs@, self.outputs@)
        } else {
            append_merged(old.outputs@, s.outputs@, self.outputs@)
        }
    }

    /// A new re-stream has an input and outputs made of the specified ones.
    open spec fn made(self, s: spec::v1::Restream) -> bool {
        &&& self.key == s.key
        &&& self.label == s.label
        &&& input_from(self.input, s.input)
        &&& outputs_made(self.outputs@, s.outputs@)
    }

    fn matches(&self, s: &spec::v1::Restream) -> (res: bool) {
        self.key.same(&s.key)
    }

    fn update(&mut self, s: spec::v1::Restream, replace: bool) {
        self.apply(s, replace);
    }

    fn make(s: spec::v1::Restream) -> (res: Restream) {
        Restream::new(s)
    }
}

/// Whether the specification `s` is an export of the re-stream `r`.
pub open spec fn restream_exported(s: spec::v1::Restream, r: Restream) -> bool {
    &&& s.key.view() == r.key.view()
    &&& label_view(s.label) == label_view(r.label)
    &&& input_exported(s.input, r.input)
    &&& s.outputs@.len() == r.outputs@.len()
    &&& forall|m: int|
        0 <= m < s.outputs@.len() ==> output_exported(#[trigger] s.outputs@[m], r.outputs@[m])
}

/// Text of the URL of an endpoint of the given kind on the local SRS server,
/// for the given keys of a re-stream and of its input.
pub open spec fn rtmp_url_text(kind: InputEndpointKind, restream: Seq<char>, input: Seq<char>) -> Seq<
    char,
> {
    "rtmp://127.0.0.1:1935/"@ + restream + (match kind {
        InputEndpointKind::Rtmp => ""@,
        InputEndpointKind::Hls => "?vhost=hls"@,
    }) + "/"@ + input
}

impl InputEndpointKind {
    /// Text of the URL of an endpoint of this kind on the local SRS server,
    /// for the given re-stream and input.
    pub fn rtmp_url_text(self, restream: &RestreamKey, input: &InputKey) -> (res: String)
        ensures
            res@ == rtmp_url_text(self, restream.view(), input.view()),
    {
        let mut s = String::new();
        push_str(&mut s, "rtmp://127.0.0.1:1935/");
        push_str(&mut s, restream.as_str());
        match self {
            InputEndpointKind::Rtmp => push_str(&mut s, ""),
            InputEndpointKind::Hls => push_str(&mut s, "?vhost=hls"),
        }
        push_str(&mut s, "/");
        push_str(&mut s, input.as_str());
        s
    }

    /// URL of an endpoint of this kind on the local SRS server, for the
    /// given re-stream and input, if its text parses as a URL.
    pub fn rtmp_url(self, restream: &RestreamKey, input: &InputKey) -> (res: Option<WebUrl>)
        ensures
            match res {
                Some(u) => parsed_url(rtmp_url_text(self, restream.view(), input.view())) == Some(
                    u@,
                ),
                None => parsed_url(rtmp_url_text(self, restream.view(), input.view())) is None,
            },
    {
        let text = self.rtmp_url_text(restream, input);
        WebUrl::parse(text.as_str())
    }
}

/// Makes new outputs of the given specifications.
fn make_outputs(specs: Vec<spec::v1::Output>) -> (res: Vec<Output>)
    ensures
        outputs_made(res@, specs@),
{
    let ghost all = specs@;
    let mut rest = specs;
    let mut res: Vec<Output> = Vec::new();
    while rest.len() > 0
        invariant
            res@.len() <= all.len(),
            rest@ == all.skip(res@.len() as int),
            forall|m: int| 0 <= m < res@.len() ==> (#[trigger] res@[m]).made(all[m]),
        decreases rest@.len(),
    {
        let ghost i = res@.len() as int;
        let n = rest.remove(0);
        assert(n == all[i]);
        res.push(Output::new(n));
        assert(rest@ =~= all.skip(res@.len() as int));
    }
    res
}

impl Restream {
    /// Creates a new re-stream out of its specification, with new IDs.
    pub fn new(spec: spec::v1::Restream) -> (res: Restream)
        ensures
            res.made(spec),
    {
        let spec::v1::Restream { key, label, input, outputs } = spec;
        Restream {
            id: RestreamId::random(),
            key,
            label,
            input: Input::new(input),
            outputs: make_outputs(outputs),
        }
    }

    /// Applies the given specification to this re-stream: its outputs are
    /// replaced by the specified ones if `replace` is `true`, or else merged
    /// with them.
    pub fn apply(&mut self, new: spec::v1::Restream, replace: bool)
        ensures
            final(self).updated(*old(self), new, replace),
    {
        let spec::v1::Restream { key, label, input, outputs } = new;
        self.key = key;
        self.label = label;
        self.input.apply(input);
        if replace {
            let mut olds: Vec<Output> = Vec::new();
            std::mem::swap(&mut olds, &mut self.outputs);
            self.outputs = merge_replace(olds, outputs);
        } else {
            merge_append(&mut self.outputs, outputs);
        }
    }

    /// Exports this re-stream as its specification.
    pub fn export(&self) -> (res: spec::v1::Restream)
        ensures
            restream_exported(res, *self),
    {
        let mut outputs: Vec<spec::v1::Output> = Vec::new();
        let mut k: usize = 0;
        while k < self.outputs.len()
            invariant
                k <= self.outputs@.len(),
                outputs@.len() == k,
                forall|m: int|
                    0 <= m < k ==> output_exported(#[trigger] outputs@[m], self.outputs@[m]),
            decreases self.outputs@.len() - k,
        {
            outputs.push(self.outputs[k].export());
            k = k + 1;
        }
        spec::v1::Restream {
            key: self.key.clone(),
            label: clone_label(&self.label),
            input: self.input.export(),
            outputs,
        }
    }

    /// URL on the local SRS server of the first RTMP endpoint of the main
    /// input of this re-stream, if its text parses as a URL.
    pub fn main_input_rtmp_endpoint_url(&self) -> (res: Option<WebUrl>)
        requires
            exists|m: int|
                0 <= m < self.input.endpoints@.len() && (#[trigger] self.input.endpoints@[m]).kind
                    == InputEndpointKind::Rtmp,
        ensures
            match res {
                Some(u) => parsed_url(
                    rtmp_url_text(InputEndpointKind::Rtmp, self.key.view(), self.input.key.view()),
                ) == Some(u@),
                None => parsed_url(
                    rtmp_url_text(InputEndpointKind::Rtmp, self.key.view(), self.input.key.view()),
                ) is None,
            },
    {
        let mut k: usize = 0;
        while k < self.input.endpoints.len()
            invariant
                k <= self.input.endpoints@.len(),
                forall|m: int|
                    0 <= m < k ==> (#[trigger] self.input.endpoints@[m]).kind
                        != InputEndpointKind::Rtmp,
                exists|m: int|
                    0 <= m < self.input.endpoints@.len() && (#[trigger] self.input.endpoints@[
                        m
                    ]).kind == InputEndpointKind::Rtmp,
            decreases self.input.endpoints@.len() - k,
        {
            if self.input.endpoints[k].is_rtmp() {
                return self.input.endpoints[k].kind.rtmp_url(&self.key, &self.input.key);
            }
            k = k + 1;
        }
        proof {
            let m = choose|m: int|
                0 <= m < self.input.endpoints@.len() && (#[trigger] self.input.endpoints@[m]).kind
                    == InputEndpointKind::Rtmp;
            assert(self.input.endpoints@[m].kind != InputEndpointKind::Rtmp);
        }
        None
    }
}

/// Error of a change of the [`State`].
#[derive(Debug)]
pub enum StateError {
    /// A re-stream with the key of this one exists already.
    RestreamKeyUsed(RestreamKey),
    /// An output with the destination URL of this one exists already in the
    /// re-stream.
    OutputDstUsed(OutputDstUrl),
}

/// The whole re-streaming state.
#[derive(Debug)]
pub struct State {
    /// Hash of the password protecting the public APIs, if any.
    pub password_hash: Option<String>,
    /// All the re-streams.
    pub restreams: Vec<Restream>,
}

/// Property of a re-stream of having the given ID.
pub open spec fn restream_with_id(id: RestreamId) -> spec_fn(Restream) -> bool {
    |r: Restream| r.id == id
}

/// Property of a re-stream of not having the given ID.
pub open spec fn restream_without_id(id: RestreamId) -> spec_fn(Restream) -> bool {
    |r: Restream| r.id != id
}

/// Property of an output of having the given ID.
pub open spec fn output_with_id(id: OutputId) -> spec_fn(Output) -> bool {
    |o: Output| o.id == id
}

/// Property of an output of not having the given ID.
pub open spec fn output_without_id(id: OutputId) -> spec_fn(Output) -> bool {
    |o: Output| o.id != id
}

/// Property of a mixin of having the given ID.
pub open spec fn mixin_with_id(id: MixinId) -> spec_fn(Mixin) -> bool {
    |m: Mixin| m.id == id
}

/// Index of the first re-stream with the given ID.
fn find_restream(rs: &Vec<Restream>, id: RestreamId) -> (res: Option<usize>)
    ensures
        match res {
            Some(j) => first_where(rs@, restream_with_id(id)) == Some(j as int),
            None => first_where(rs@, restream_with_id(id)) is None,
        },
{
    let mut k: usize = 0;
    while k < rs.len()
        invariant
            k <= rs@.len(),
            forall|m: int| 0 <= m < k ==> !restream_with_id(id)(#[trigger] rs@[m]),
        decreases rs@.len() - k,
    {
        if rs[k].id == id {
            proof {
                lemma_first_where(rs@, restream_with_id(id), k as int);
            }
            return Some(k);
        }
        k = k + 1;
    }
    proof {
        lemma_first_where_none(rs@, restream_with_id(id));
    }
    None
}

/// Index of the first output with the given ID.
fn find_output(os: &Vec<Output>, id: OutputId) -> (res: Option<usize>)
    ensures
        match res {
            Some(j) => first_where(os@, output_with_id(id)) == Some(j as int),
            None => first_where(os@, output_with_id(id)) is None,
        },
{
    let mut k: usize = 0;
    while k < os.len()
        invariant
            k <= os@.len(),
            forall|m: int| 0 <= m < k ==> !output_with_id(id)(#[trigger] os@[m]),
        decreases os@.len() - k,
    {
        if os[k].id == id {
            proof {
                lemma_first_where(os@, output_with_id(id), k as int);
            }
            return Some(k);
        }
        k = k + 1;
    }
    proof {
        lemma_first_where_none(os@, output_with_id(id));
    }
    None
}

/// Index of the first mixin with the given ID.
fn find_mixin(ms: &Vec<Mixin>, id: MixinId) -> (res: Option<usize>)
    ensures
        match res {
            Some(j) => first_where(ms@, mixin_with_id(id)) == Some(j as int),
            None => first_where(ms@, mixin_with_id(id)) is None,
        },
{
    let mut k: usize = 0;
    while k < ms.len()
        invariant
            k <= ms@.len(),
            forall|m: int| 0 <= m < k ==> !mixin_with_id(id)(#[trigger] ms@[m]),
        decreases ms@.len() - k,
    {
        if ms[k].id == id {
            proof {
                lemma_first_where(ms@, mixin_with_id(id), k as int);
            }
            return Some(k);
        }
        k = k + 1;
    }
    proof {
        lemma_first_where_none(ms@, mixin_with_id(id));
    }
    None
}

/// Whether a re-stream other than the one with the given ID, if any, has
/// the given key.
pub open spec fn key_used(rs: Seq<Restream>, key: Seq<char>, except: Option<RestreamId>) -> bool {
    exists|m: int|
        0 <= m < rs.len() && (#[trigger] rs[m]).key.view() == key && except != Some(rs[m].id)
}

/// Whether an output other than the one with the given ID, if any, has the
/// destination URL of the given text.
pub open spec fn dst_used(os: Seq<Output>, dst: Seq<char>, except: Option<OutputId>) -> bool {
    exists|m: int|
        0 <= m < os.len() && (#[trigger] os[m]).dst.view().text == dst && except != Some(os[m].id)
}

/// Whether the key is used by a re-stream other than the one with the given
/// ID, if any.
fn find_key(rs: &Vec<Restream>, key: &RestreamKey, except: Option<RestreamId>) -> (res: bool)
    ensures
        res == key_used(rs@, key.view(), except),
{
    let mut k: usize = 0;
    while k < rs.len()
        invariant
            k <= rs@.len(),
            forall|m: int|
                0 <= m < k ==> !((#[trigger] rs@[m]).key.view() == key.view() && except != Some(
                    rs@[m].id,
                )),
        decreases rs@.len() - k,
    {
        let other = match except {
            Some(id) => rs[k].id != id,
            None => true,
        };
        if rs[k].key.same(key) && other {
            return true;
        }
        k = k + 1;
    }
    false
}

/// Index of the first output with the destination URL of the text of the
/// given one, other than the one with the given ID, if any.
fn find_dst(os: &Vec<Output>, dst: &OutputDstUrl, except: Option<OutputId>) -> (res: Option<usize>)
    ensures
        match res {
            Some(j) => j < os@.len() && os@[j as int].dst.view().text == dst.view().text && except
                != Some(os@[j as int].id),
            None => !dst_used(os@, dst.view().text, except),
        },
{
    let mut k: usize = 0;
    while k < os.len()
        invariant
            k <= os@.len(),
            forall|m: int|
                0 <= m < k ==> !((#[trigger] os@[m]).dst.view().text == dst.view().text && except
                    != Some(os@[m].id)),
        decreases os@.len() - k,
    {
        let other = match except {
            Some(id) => os[k].id != id,
            None => true,
        };
        if os[k].dst.same(dst) && other {
            return Some(k);
        }
        k = k + 1;
    }
    None
}

/// Whether the re-stream `x` is the re-stream `o` with its outputs alone
/// changed.
pub open spec fn outputs_changed(x: Restream, o: Restream) -> bool {
    &&& x.id == o.id
    &&& x.key == o.key
    &&& x.label == o.label
    &&& x.input == o.input
}

/// Whether the re-stream `x` is the re-stream `o` with its input alone
/// changed.
pub open spec fn input_changed(x: Restream, o: Restream) -> bool {
    &&& x.id == o.id
    &&& x.key == o.key
    &&& x.label == o.label
    &&& x.outputs == o.outputs
}

/// Whether the output `x` is the output `o` with its mixins alone changed.
pub open spec fn mixins_changed(x: Output, o: Output) -> bool {
    &&& x.id == o.id
    &&& x.dst == o.dst
    &&& x.label == o.label
    &&& x.volume == o.volume
    &&& x.enabled == o.enabled
    &&& x.status == o.status
}

/// Whether the state `x` and the result `res` are those of adding a
/// re-stream made of the specification `spec` to the state `o`: refused if
/// a re-stream with its key exists already.
pub open spec fn restream_added(o: State, x: State, spec: spec::v1::Restream, res: Result<(), StateError>) -> bool {
    &&& res is Err <==> key_used(o.restreams@, spec.key.view(), None)
    &&& match res {
        Err(e) => x == o && e == StateError::RestreamKeyUsed(spec.key),
        Ok(_) => {
            &&& x.password_hash == o.password_hash
            &&& x.restreams@.drop_last() == o.restreams@
            &&& x.restreams@.len() == o.restreams@.len() + 1
            &&& x.restreams@.last().made(spec)
        }
    }
}

/// Whether the state `x` and the result `res` are those of applying the
/// specification `spec` to the re-stream with the ID `id` of the state `o`,
/// merging its outputs: refused if another re-stream has the specified key.
pub open spec fn restream_edited(o: State, x: State, id: RestreamId, spec: spec::v1::Restream, res: Result<Option<()>, StateError>) -> bool {
    &&& res is Err <==> key_used(o.restreams@, spec.key.view(), Some(id))
    &&& match res {
        Err(e) => x == o && e == StateError::RestreamKeyUsed(spec.key),
        Ok(None) => x == o && first_where(
            o.restreams@,
            restream_with_id(id),
        ) is None,
        Ok(Some(_)) => first_where(o.restreams@, restream_with_id(id)) matches Some(
            j,
        ) && {
            &&& x.password_hash == o.password_hash
            &&& x.restreams@ == o.restreams@.update(
                j,
                x.restreams@[j],
            )
            &&& x.restreams@[j].updated(o.restreams@[j], spec, false)
        }
    }
}

/// Whether the state `x` and the result `res` are those of adding an output
/// made of the specification `spec` to the re-stream with the ID
/// `restream_id` of the state `o`: refused if it has an output with the
/// specified destination URL already.
pub open spec fn output_added(o: State, x: State, restream_id: RestreamId, spec: spec::v1::Output, res: Result<Option<()>, StateError>) -> bool {
    &&& match first_where(o.restreams@, restream_with_id(restream_id)) {
        None => res matches Ok(None) && x == o,
        Some(j) => {
            &&& res is Err <==> dst_used(
                o.restreams@[j].outputs@,
                spec.dst.view().text,
                None,
            )
            &&& match res {
                Err(e) => x == o && (e matches StateError::OutputDstUsed(
                    u,
                ) && u.view().text == spec.dst.view().text),
                Ok(None) => false,
                Ok(Some(_)) => {
                    &&& only_outputs_of(x, o, j)
                    &&& x.restreams@[j].outputs@.drop_last() == o.restreams@[j].outputs@
                    &&& x.restreams@[j].outputs@.len() == o.restreams@[j].outputs@.len() + 1
                    &&& x.restreams@[j].outputs@.last().made(spec)
                },
            }
        }
    }
}

/// Whether the state `x` and the result `res` are those of applying the
/// specification `spec` to the output with the ID `id` of the re-stream with
/// the ID `restream_id` of the state `o`, replacing its mixins: refused if
/// another output of the re-stream has the specified destination URL.
pub open spec fn output_edited(o: State, x: State, restream_id: RestreamId, id: OutputId, spec: spec::v1::Output, res: Result<Option<()>, StateError>) -> bool {
    &&& match first_where(o.restreams@, restream_with_id(restream_id)) {
        None => res matches Ok(None) && x == o,
        Some(j) => {
            &&& res is Err <==> dst_used(
                o.restreams@[j].outputs@,
                spec.dst.view().text,
                Some(id),
            )
            &&& match res {
                Err(e) => x == o && e == StateError::OutputDstUsed(
                    spec.dst,
                ),
                Ok(None) => x == o && first_where(
                    o.restreams@[j].outputs@,
                    output_with_id(id),
                ) is None,
                Ok(Some(_)) => first_where(
                    o.restreams@[j].outputs@,
                    output_with_id(id),
                ) matches Some(k) && only_output(
                    x,
                    o,
                    j,
                    k,
                    x.restreams@[j].outputs@[k],
                ) && x.restreams@[j].outputs@[k].updated(
                    o.restreams@[j].outputs@[k],
                    spec,
                    true,
                ),
            }
        }
    }
}

impl State {
    /// A new state without a password and without re-streams.
    pub fn new() -> (res: State)
        ensures
            res.password_hash is None,
            res.restreams@.len() == 0,
    {
        State { password_hash: None, restreams: Vec::new() }
    }

    /// Applies the given specification to this state: the re-streams (and
    /// their outputs and mixins) are replaced by the specified ones if
    /// `replace` is `true`, or else merged with them.
    pub fn apply(&mut self, new: spec::v1::Spec, replace: bool)
        ensures
            final(self).password_hash == old(self).password_hash,
            if replace {
                replace_merged(old(self).restreams@, new.restreams@, final(self).restreams@)
            } else {
                append_merged(old(self).restreams@, new.restreams@, final(self).restreams@)
            },
    {
        let spec::v1::Spec { restreams } = new;
        if replace {
            let mut olds: Vec<Restream> = Vec::new();
            std::mem::swap(&mut olds, &mut self.restreams);
            self.restreams = merge_replace(olds, restreams);
        } else {
            merge_append(&mut self.restreams, restreams);
        }
    }

    /// Exports this state as its specification.
    pub fn export(&self) -> (res: spec::Spec)
        ensures
            res matches spec::Spec::V1(s) && s.restreams@.len() == self.restreams@.len() && forall|
                m: int,
            |
                0 <= m < s.restreams@.len() ==> restream_exported(
                    #[trigger] s.restreams@[m],
                    self.restreams@[m],
                ),
    {
        let mut restreams: Vec<spec::v1::Restream> = Vec::new();
        let mut k: usize = 0;
        while k < self.restreams.len()
            invariant
                k <= self.restreams@.len(),
                restreams@.len() == k,
                forall|m: int|
                    0 <= m < k ==> restream_exported(#[trigger] restreams@[m], self.restreams@[m]),
            decreases self.restreams@.len() - k,
        {
            restreams.push(self.restreams[k].export());
            k = k + 1;
        }
        spec::Spec::V1(spec::v1::Spec { restreams })
    }

    /// Adds a new re-stream made of the given specification, unless a
    /// re-stream with its key exists already.
    pub fn add_restream(&mut self, spec: spec::v1::Restream) -> (res: Result<(), StateError>)
        ensures
            restream_added(*old(self), *final(self), spec, res),

    {
        if find_key(&self.restreams, &spec.key, None) {
            return Err(StateError::RestreamKeyUsed(spec.key));
        }
        let ghost rs = self.restreams@;
        self.restreams.push(Restream::new(spec));
        assert(self.restreams@.drop_last() =~= rs);
        Ok(())
    }

    /// Applies the given specification to the re-stream with the given ID,
    /// merging its outputs with the specified ones, unless another re-stream
    /// has the specified key. Returns `None` if there is no such re-stream.
    pub fn edit_restream(&mut self, id: RestreamId, spec: spec::v1::Restream) -> (res: Result<
        Option<()>,
        StateError,
    >)
        ensures
            restream_edited(*old(self), *final(self), id, spec, res),

    {
        if find_key(&self.restreams, &spec.key, Some(id)) {
            return Err(StateError::RestreamKeyUsed(spec.key));
        }
        match find_restream(&self.restreams, id) {
            None => Ok(None),
            Some(j) => {
                let ghost rs = self.restreams@;
                self.restreams[j].apply(spec, false);
                assert(self.restreams@ =~= rs.update(j as int, self.restreams@[j as int]));
                Ok(Some(()))
            },
        }
    }

    /// Removes the re-streams with the given ID. Returns `None` if there is
    /// no such re-stream.
    pub fn remove_restream(&mut self, id: RestreamId) -> (res: Option<()>)
        ensures
            final(self).password_hash == old(self).password_hash,
            final(self).restreams@ == old(self).restreams@.filter(restream_without_id(id)),
            res is Some <==> exists|m: int|
                0 <= m < old(self).restreams@.len() && (#[trigger] old(self).restreams@[m]).id == id,
    {
        let ghost rs = self.restreams@;
        let mut olds: Vec<Restream> = Vec::new();
        std::mem::swap(&mut olds, &mut self.restreams);
        let mut rest = olds;
        let mut kept: Vec<Restream> = Vec::new();
        let mut removed = false;
        let ghost mut i: int = 0;
        while rest.len() > 0
            invariant
                0 <= i <= rs.len(),
                rest@ == rs.skip(i),
                kept@ == rs.take(i).filter(restream_without_id(id)),
                removed <==> exists|m: int| 0 <= m < i && (#[trigger] rs[m]).id == id,
            decreases rest@.len(),
        {
            let r = rest.remove(0);
            assert(r == rs[i]);
            proof {
                let pre = rs.take(i + 1);
                assert(pre.drop_last() =~= rs.take(i));
                reveal(Seq::filter);
            }
            if r.id == id {
                removed = true;
            } else {
                kept.push(r);
            }
            proof {
                i = i + 1;
                assert(rest@ =~= rs.skip(i));
            }
        }
        proof {
            assert(rs.take(i) =~= rs);
        }
        self.restreams = kept;
        if removed {
            Some(())
        } else {
            None
        }
    }

    /// Switches on or off the input of the re-stream with the given ID (and
    /// all its failover inputs); returns whether one of their `enabled` has
    /// changed, or `None` if there is no such re-stream.
    fn switch_restream(&mut self, id: RestreamId, on: bool) -> (res: Option<bool>)
        ensures
            match res {
                None => *final(self) == *old(self) && first_where(
                    old(self).restreams@,
                    restream_with_id(id),
                ) is None,
                Some(b) => first_where(old(self).restreams@, restream_with_id(id)) matches Some(j)
                    && {
                    &&& b == switch_changes(old(self).restreams@[j].input, on)
                    &&& final(self).password_hash == old(self).password_hash
                    &&& final(self).restreams@ == old(self).restreams@.update(
                        j,
                        final(self).restreams@[j],
                    )
                    &&& input_changed(final(self).restreams@[j], old(self).restreams@[j])
                    &&& input_switched(
                        final(self).restreams@[j].input,
                        old(self).restreams@[j].input,
                        on,
                    )
                },
            },
    {
        match find_restream(&self.restreams, id) {
            None => None,
            Some(j) => {
                let ghost rs = self.restreams@;
                let b = if on {
                    self.restreams[j].input.enable()
                } else {
                    self.restreams[j].input.disable()
                };
                assert(self.restreams@ =~= rs.update(j as int, self.restreams@[j as int]));
                Some(b)
            },
        }
    }

    /// Enables the re-stream with the given ID: its input and all its
    /// failover inputs. Returns `true` if one of them has been enabled,
    /// `false` if all of them have been enabled already, or `None` if there
    /// is no such re-stream.
    pub fn enable_restream(&mut self, id: RestreamId) -> (res: Option<bool>)
        ensures
            match res {
                None => *final(self) == *old(self) && first_where(
                    old(self).restreams@,
                    restream_with_id(id),
                ) is None,
                Some(b) => first_where(old(self).restreams@, restream_with_id(id)) matches Some(j)
                    && {
                    &&& b == switch_changes(old(self).restreams@[j].input, true)
                    &&& final(self).password_hash == old(self).password_hash
                    &&& final(self).restreams@ == old(self).restreams@.update(
                        j,
                        final(self).restreams@[j],
                    )
                    &&& input_changed(final(self).restreams@[j], old(self).restreams@[j])
                    &&& input_switched(
                        final(self).restreams@[j].input,
                        old(self).restreams@[j].input,
                        true,
                    )
                },
            },
    {
        self.switch_restream(id, true)
    }

    /// Disables the re-stream with the given ID: its input and all its
    /// failover inputs, kicking the clients of their endpoints. Returns
    /// `true` if one of them has been disabled, `false` if all of them have
    /// been disabled already, or `None` if there is no such re-stream.
    pub fn disable_restream(&mut self, id: RestreamId) -> (res: Option<bool>)
        ensures
            match res {
                None => *final(self) == *old(self) && first_where(
                    old(self).restreams@,
                    restream_with_id(id),
                ) is None,
                Some(b) => first_where(old(self).restreams@, restream_with_id(id)) matches Some(j)
                    && {
                    &&& b == switch_changes(old(self).restreams@[j].input, false)
                    &&& final(self).password_hash == old(self).password_hash
                    &&& final(self).restreams@ == old(self).restreams@.update(
                        j,
                        final(self).restreams@[j],
                    )
                    &&& input_changed(final(self).restreams@[j], old(self).restreams@[j])
                    &&& input_switched(
                        final(self).restreams@[j].input,
                        old(self).restreams@[j].input,
                        false,
                    )
                },
            },
    {
        self.switch_restream(id, false)
    }

    /// Switches on or off the input with the given ID in the re-stream with
    /// the given ID: returns whether the `enabled` of it or of one of its
    /// failover inputs has changed, or `None` if there is no such re-stream
    /// or input.
    fn switch_input(&mut self, id: InputId, restream_id: RestreamId, on: bool) -> (res: Option<
        bool,
    >)
        ensures
            match first_where(old(self).restreams@, restream_with_id(restream_id)) {
                None => res is None && *final(self) == *old(self),
                Some(j) => {
                    &&& final(self).password_hash == old(self).password_hash
                    &&& final(self).restreams@ == old(self).restreams@.update(
                        j,
                        final(self).restreams@[j],
                    )
                    &&& input_changed(final(self).restreams@[j], old(self).restreams@[j])
                    &&& input_switched_at(
                        final(self).restreams@[j].input,
                        old(self).restreams@[j].input,
                        id,
                        on,
                    )
                    &&& match res {
                        Some(b) => input_find(old(self).restreams@[j].input, id) matches Some(t)
                            && b == switch_changes(t, on),
                        None => input_find(old(self).restreams@[j].input, id) is None,
                    }
                },
            },
    {
        match find_restream(&self.restreams, restream_id) {
            None => None,
            Some(j) => {
                let ghost rs = self.restreams@;
                let res = self.restreams[j].input.switch_input(id, on);
                assert(self.restreams@ =~= rs.update(j as int, self.restreams@[j as int]));
                res
            },
        }
    }

    /// Enables the input with the given ID (and all its failover inputs) in
    /// the re-stream with the given ID. Returns `true` if one of them has
    /// been enabled, `false` if all of them have been enabled already, or
    /// `None` if there is no such re-stream or input.
    pub fn enable_input(&mut self, id: InputId, restream_id: RestreamId) -> (res: Option<bool>)
        ensures
            match first_where(old(self).restreams@, restream_with_id(restream_id)) {
                None => res is None && *final(self) == *old(self),
                Some(j) => {
                    &&& final(self).password_hash == old(self).password_hash
                    &&& final(self).restreams@ == old(self).restreams@.update(
                        j,
                        final(self).restreams@[j],
                    )
                    &&& input_changed(final(self).restreams@[j], old(self).restreams@[j])
                    &&& input_switched_at(
                        final(self).restreams@[j].input,
                        old(self).restreams@[j].input,
                        id,
                        true,
                    )
                    &&& match res {
                        Some(b) => input_find(old(self).restreams@[j].input, id) matches Some(t)
                            && b == switch_changes(t, true),
                        None => input_find(old(self).restreams@[j].input, id) is None,
                    }
                },
            },
    {
        self.switch_input(id, restream_id, true)
    }

    /// Disables the input with the given ID (and all its failover inputs) in
    /// the re-stream with the given ID. Returns `true` if one of them has
    /// been disabled, `false` if all of them have been disabled already, or
    /// `None` if there is no such re-stream or input.
    pub fn disable_input(&mut self, id: InputId, restream_id: RestreamId) -> (res: Option<bool>)
        ensures
            match first_where(old(self).restreams@, restream_with_id(restream_id)) {
                None => res is None && *final(self) == *old(self),
                Some(j) => {
                    &&& final(self).password_hash == old(self).password_hash
                    &&& final(self).restreams@ == old(self).restreams@.update(
                        j,
                        final(self).restreams@[j],
                    )
                    &&& input_changed(final(self).restreams@[j], old(self).restreams@[j])
                    &&& input_switched_at(
                        final(self).restreams@[j].input,
                        old(self).restreams@[j].input,
                        id,
                        false,
                    )
                    &&& match res {
                        Some(b) => input_find(old(self).restreams@[j].input, id) matches Some(t)
                            && b == switch_changes(t, false),
                        None => input_find(old(self).restreams@[j].input, id) is None,
                    }
                },
            },
    {
        self.switch_input(id, restream_id, false)
    }
}

/// Whether the list `xs` is the list `os` with its `j`-th item alone
/// changed.
pub open spec fn only_at<T>(xs: Seq<T>, os: Seq<T>, j: int) -> bool {
    &&& 0 <= j < os.len()
    &&& xs == os.update(j, xs[j])
}

/// Whether the state `x` is the state `o` with the outputs of its `j`-th
/// re-stream alone changed.
pub open spec fn only_outputs_of(x: State, o: State, j: int) -> bool {
    &&& x.password_hash == o.password_hash
    &&& only_at(x.restreams@, o.restreams@, j)
    &&& outputs_changed(x.restreams@[j], o.restreams@[j])
}

/// Whether the state `x` is the state `o` with the `k`-th output of its
/// `j`-th re-stream alone changed, into `out`.
pub open spec fn only_output(x: State, o: State, j: int, k: int, out: Output) -> bool {
    &&& only_outputs_of(x, o, j)
    &&& 0 <= k < o.restreams@[j].outputs@.len()
    &&& x.restreams@[j].outputs@ == o.restreams@[j].outputs@.update(k, out)
}

/// Whether the state `x` and the result `res` are what switching on (or
/// off) the output with the given ID of the re-stream with the given ID
/// makes of the state `o`: where there is such an output, it alone is
/// switched, and the result tells whether it has changed; otherwise nothing
/// changes and the result is `None`.
pub open spec fn output_switched(
    x: State,
    o: State,
    res: Option<bool>,
    id: OutputId,
    restream_id: RestreamId,
    on: bool,
) -> bool {
    match first_where(o.restreams@, restream_with_id(restream_id)) {
        None => res is None && x == o,
        Some(j) => match first_where(o.restreams@[j].outputs@, output_with_id(id)) {
            None => res is None && x == o,
            Some(k) => {
                let out = o.restreams@[j].outputs@[k];
                &&& res == Some(out.enabled != on)
                &&& only_output(x, o, j, k, (Output { enabled: on, ..out }))
            },
        },
    }
}

/// Whether the states `x` and `o` hold the same: the same password hash,
/// and the same re-streams with the same outputs.
pub open spec fn same_contents(x: State, o: State) -> bool {
    &&& x.password_hash == o.password_hash
    &&& x.restreams@.len() == o.restreams@.len()
    &&& forall|i: int|
        0 <= i < x.restreams@.len() ==> outputs_changed(#[trigger] x.restreams@[i], o.restreams@[i])
            && x.restreams@[i].outputs@ == o.restreams@[i].outputs@
}

/// Switching an output on (or off) a second time changes nothing: it
/// answers `Some(false)` where there is such an output, `None` otherwise.
pub proof fn lemma_switch_output_twice(
    s0: State,
    s1: State,
    s2: State,
    r1: Option<bool>,
    r2: Option<bool>,
    id: OutputId,
    restream_id: RestreamId,
    on: bool,
)
    requires
        output_switched(s1, s0, r1, id, restream_id, on),
        output_switched(s2, s1, r2, id, restream_id, on),
    ensures
        r2 == (if r1 is Some {
            Some(false)
        } else {
            None::<bool>
        }),
        same_contents(s2, s1),
{
    match first_where(s0.restreams@, restream_with_id(restream_id)) {
        None => {},
        Some(j) => {
            match first_where(s0.restreams@[j].outputs@, output_with_id(id)) {
                None => {},
                Some(k) => {
                    let rs1 = s1.restreams@;
                    assert(is_first_where(rs1, restream_with_id(restream_id), j)) by {
                        assert forall|m: int| 0 <= m < j implies !restream_with_id(restream_id)(
                            #[trigger] rs1[m],
                        ) by {
                            assert(rs1[m] == s0.restreams@[m]);
                        }
                    }
                    lemma_first_where(rs1, restream_with_id(restream_id), j);
                    let os1 = rs1[j].outputs@;
                    assert(is_first_where(os1, output_with_id(id), k)) by {
                        assert forall|m: int| 0 <= m < k implies !output_with_id(id)(#[trigger] os1[m]) by {
                            assert(os1[m] == s0.restreams@[j].outputs@[m]);
                        }
                    }
                    lemma_first_where(os1, output_with_id(id), k);
                    let o1 = os1[k];
                    assert((Output { enabled: on, ..o1 }) == o1);
                    assert(s2.restreams@[j].outputs@ =~= os1);
                    assert forall|i: int| 0 <= i < s2.restreams@.len() implies outputs_changed(
                        #[trigger] s2.restreams@[i],
                        s1.restreams@[i],
                    ) && s2.restreams@[i].outputs@ == s1.restreams@[i].outputs@ by {
                        if i != j {
                            assert(s2.restreams@[i] == s1.restreams@[i]);
                        }
                    }
                },
            }
        },
    }
    if r1 is None {
        assert forall|i: int| 0 <= i < s2.restreams@.len() implies outputs_changed(
            #[trigger] s2.restreams@[i],
            s1.restreams@[i],
        ) && s2.restreams@[i].outputs@ == s1.restreams@[i].outputs@ by {}
    }
}

/// Whether the outputs `xs` are the outputs `os`, all switched on or off.
pub open spec fn all_switched(xs: Seq<Output>, os: Seq<Output>, on: bool) -> bool {
    &&& xs.len() == os.len()
    &&& forall|m: int| 0 <= m < xs.len() ==> #[trigger] xs[m] == (Output { enabled: on, ..os[m] })
}

impl State {
    /// Adds a new output made of the given specification to the re-stream
    /// with the given ID, unless it has an output with the specified
    /// destination URL already. Returns `None` if there is no such
    /// re-stream.
    pub fn add_output(&mut self, restream_id: RestreamId, spec: spec::v1::Output) -> (res: Result<
        Option<()>,
        StateError,
    >)
        ensures
            output_added(*old(self), *final(self), restream_id, spec, res),

    {
        let j = match find_restream(&self.restreams, restream_id) {
            None => {
                return Ok(None);
            },
            Some(j) => j,
        };
        if let Some(k) = find_dst(&self.restreams[j].outputs, &spec.dst, None) {
            return Err(StateError::OutputDstUsed(self.restreams[j].outputs[k].dst.clone()));
        }
        let ghost rs = self.restreams@;
        self.restreams[j].outputs.push(Output::new(spec));
        assert(self.restreams@ =~= rs.update(j as int, self.restreams@[j as int]));
        assert(self.restreams@[j as int].outputs@.drop_last() =~= rs[j as int].outputs@);
        Ok(Some(()))
    }

    /// Applies the given specification to the output with the given ID of
    /// the re-stream with the given ID, replacing its mixins by the
    /// specified ones, unless another output of the re-stream has the
    /// specified destination URL. Returns `None` if there is no such
    /// re-stream or output.
    pub fn edit_output(&mut self, restream_id: RestreamId, id: OutputId, spec: spec::v1::Output) -> (res:
        Result<Option<()>, StateError>)
        ensures
            output_edited(*old(self), *final(self), restream_id, id, spec, res),

    {
        let j = match find_restream(&self.restreams, restream_id) {
            None => {
                return Ok(None);
            },
            Some(j) => j,
        };
        if find_dst(&self.restreams[j].outputs, &spec.dst, Some(id)).is_some() {
            return Err(StateError::OutputDstUsed(spec.dst));
        }
        match find_output(&self.restreams[j].outputs, id) {
            None => Ok(None),
            Some(k) => {
                let ghost rs = self.restreams@;
                let ghost os = rs[j as int].outputs@;
                self.restreams[j].outputs[k].apply(spec, true);
                assert(self.restreams@ =~= rs.update(j as int, self.restreams@[j as int]));
                assert(self.restreams@[j as int].outputs@ =~= os.update(
                    k as int,
                    self.restreams@[j as int].outputs@[k as int],
                ));
                Ok(Some(()))
            },
        }
    }

    /// Removes the outputs with the given ID from the re-stream with the
    /// given ID. Returns `None` if there is no such re-stream or output.
    pub fn remove_output(&mut self, id: OutputId, restream_id: RestreamId) -> (res: Option<()>)
        ensures
            match first_where(old(self).restreams@, restream_with_id(restream_id)) {
                None => res is None && *final(self) == *old(self),
                Some(j) => {
                    &&& only_outputs_of(*final(self), *old(self), j)
                    &&& final(self).restreams@[j].outputs@ == old(
                        self,
                    ).restreams@[j].outputs@.filter(output_without_id(id))
                    &&& res is Some <==> exists|m: int|
                        0 <= m < old(self).restreams@[j].outputs@.len() && (#[trigger] old(
                            self,
                        ).restreams@[j].outputs@[m]).id == id
                },
            },
    {
        let j = match find_restream(&self.restreams, restream_id) {
            None => {
                return None;
            },
            Some(j) => j,
        };
        let ghost rs = self.restreams@;
        let ghost os = rs[j as int].outputs@;
        let mut olds: Vec<Output> = Vec::new();
        std::mem::swap(&mut olds, &mut self.restreams[j].outputs);
        let mut rest = olds;
        let mut kept: Vec<Output> = Vec::new();
        let mut removed = false;
        let ghost mut i: int = 0;
        while rest.len() > 0
            invariant
                0 <= i <= os.len(),
                rest@ == os.skip(i),
                kept@ == os.take(i).filter(output_without_id(id)),
                removed <==> exists|m: int| 0 <= m < i && (#[trigger] os[m]).id == id,
            decreases rest@.len(),
        {
            let o = rest.remove(0);
            assert(o == os[i]);
            proof {
                let pre = os.take(i + 1);
                assert(pre.drop_last() =~= os.take(i));
                reveal(Seq::filter);
            }
            if o.id == id {
                removed = true;
            } else {
                kept.push(o);
            }
            proof {
                i = i + 1;
                assert(rest@ =~= os.skip(i));
            }
        }
        proof {
            assert(os.take(i) =~= os);
        }
        self.restreams[j].outputs = kept;
        assert(self.restreams@ =~= rs.update(j as int, self.restreams@[j as int]));
        if removed {
            Some(())
        } else {
            None
        }
    }

    /// Switches on or off the output with the given ID of the re-stream with
    /// the given ID. Returns whether it has changed, or `None` if there is no
    /// such re-stream or output.
    fn switch_output(&mut self, id: OutputId, restream_id: RestreamId, on: bool) -> (res: Option<
        bool,
    >)
        ensures
            output_switched(*final(self), *old(self), res, id, restream_id, on),
    {
        let j = match find_restream(&self.restreams, restream_id) {
            None => {
                return None;
            },
            Some(j) => j,
        };
        let k = match find_output(&self.restreams[j].outputs, id) {
            None => {
                return None;
            },
            Some(k) => k,
        };
        let ghost rs = self.restreams@;
        let ghost os = rs[j as int].outputs@;
        if self.restreams[j].outputs[k].enabled == on {
            assert(os =~= os.update(k as int, (Output { enabled: on, ..os[k as int] })));
            assert(self.restreams@ =~= rs.update(j as int, self.restreams@[j as int]));
            return Some(false);
        }
        self.restreams[j].outputs[k].enabled = on;
        assert(self.restreams@ =~= rs.update(j as int, self.restreams@[j as int]));
        assert(self.restreams@[j as int].outputs@ =~= os.update(
            k as int,
            (Output { enabled: on, ..os[k as int] }),
        ));
        Some(true)
    }

    /// Enables the output with the given ID of the re-stream with the given
    /// ID. Returns `true` if it has been enabled, `false` if it has been
    /// enabled already, or `None` if there is no such re-stream or output.
    pub fn enable_output(&mut self, id: OutputId, restream_id: RestreamId) -> (res: Option<bool>)
        ensures
            output_switched(*final(self), *old(self), res, id, restream_id, true),
    {
        self.switch_output(id, restream_id, true)
    }

    /// Disables the output with the given ID of the re-stream with the given
    /// ID. Returns `true` if it has been disabled, `false` if it has been
    /// disabled already, or `None` if there is no such re-stream or output.
    pub fn disable_output(&mut self, id: OutputId, restream_id: RestreamId) -> (res: Option<bool>)
        ensures
            output_switched(*final(self), *old(self), res, id, restream_id, false),
    {
        self.switch_output(id, restream_id, false)
    }

    /// Switches on or off all the outputs of the re-stream with the given ID.
    /// Returns whether one of them has changed, or `None` if there is no
    /// such re-stream.
    fn switch_all_outputs(&mut self, restream_id: RestreamId, on: bool) -> (res: Option<bool>)
        ensures
            match first_where(old(self).restreams@, restream_with_id(restream_id)) {
                None => res is None && *final(self) == *old(self),
                Some(j) => {
                    &&& res == Some(
                        exists|m: int|
                            0 <= m < old(self).restreams@[j].outputs@.len() && (#[trigger] old(
                                self,
                            ).restreams@[j].outputs@[m]).enabled != on,
                    )
                    &&& only_outputs_of(*final(self), *old(self), j)
                    &&& all_switched(
                        final(self).restreams@[j].outputs@,
                        old(self).restreams@[j].outputs@,
                        on,
                    )
                },
            },
    {
        let j = match find_restream(&self.restreams, restream_id) {
            None => {
                return None;
            },
            Some(j) => j,
        };
        let ghost rs = self.restreams@;
        let ghost os = rs[j as int].outputs@;
        let mut outs: Vec<Output> = Vec::new();
        std::mem::swap(&mut outs, &mut self.restreams[j].outputs);
        let mut changed = false;
        let mut k: usize = 0;
        while k < outs.len()
            invariant
                k <= outs@.len(),
                outs@.len() == os.len(),
                forall|m: int| 0 <= m < k ==> #[trigger] outs@[m] == (Output { enabled: on, ..os[m] }),
                forall|m: int| k <= m < outs@.len() ==> #[trigger] outs@[m] == os[m],
                changed <==> exists|m: int| 0 <= m < k && (#[trigger] os[m]).enabled != on,
            decreases outs@.len() - k,
        {
            if outs[k].enabled != on {
                outs[k].enabled = on;
                changed = true;
            } else {
                assert(outs@[k as int] == (Output { enabled: on, ..os[k as int] }));
            }
            k = k + 1;
        }
        self.restreams[j].outputs = outs;
        assert(self.restreams@ =~= rs.update(j as int, self.restreams@[j as int]));
        Some(changed)
    }

    /// Enables all the outputs of the re-stream with the given ID. Returns
    /// `true` if one of them has been enabled, `false` if all of them have
    /// been enabled already, or `None` if there is no such re-stream.
    pub fn enable_all_outputs(&mut self, restream_id: RestreamId) -> (res: Option<bool>)
        ensures
            match first_where(old(self).restreams@, restream_with_id(restream_id)) {
                None => res is None && *final(self) == *old(self),
                Some(j) => {
                    &&& res == Some(
                        exists|m: int|
                            0 <= m < old(self).restreams@[j].outputs@.len() && !(#[trigger] old(
                                self,
                            ).restreams@[j].outputs@[m]).enabled,
                    )
                    &&& only_outputs_of(*final(self), *old(self), j)
                    &&& all_switched(
                        final(self).restreams@[j].outputs@,
                        old(self).restreams@[j].outputs@,
                        true,
                    )
                },
            },
    {
        self.switch_all_outputs(restream_id, true)
    }

    /// Disables all the outputs of the re-stream with the given ID. Returns
    /// `true` if one of them has been disabled, `false` if all of them have
    /// been disabled already, or `None` if there is no such re-stream.
    pub fn disable_all_outputs(&mut self, restream_id: RestreamId) -> (res: Option<bool>)
        ensures
            match first_where(old(self).restreams@, restream_with_id(restream_id)) {
                None => res is None && *final(self) == *old(self),
                Some(j) => {
                    &&& res == Some(
                        exists|m: int|
                            0 <= m < old(self).restreams@[j].outputs@.len() && (#[trigger] old(
                                self,
                            ).restreams@[j].outputs@[m]).enabled,
                    )
                    &&& only_outputs_of(*final(self), *old(self), j)
                    &&& all_switched(
                        final(self).restreams@[j].outputs@,
                        old(self).restreams@[j].outputs@,
                        false,
                    )
                },
            },
    {
        self.switch_all_outputs(restream_id, false)
    }

    /// Tunes the volume of the output with the given ID of the re-stream with
    /// the given ID, or that of its mixin with the given ID. Returns whether
    /// the volume has changed, or `None` if there is no such re-stream,
    /// output or mixin.
    pub fn tune_volume(
        &mut self,
        restream_id: RestreamId,
        output_id: OutputId,
        mixin_id: Option<MixinId>,
        volume: Volume,
    ) -> (res: Option<bool>)
        ensures
            match first_where(old(self).restreams@, restream_with_id(restream_id)) {
                None => res is None && *final(self) == *old(self),
                Some(j) => match first_where(
                    old(self).restreams@[j].outputs@,
                    output_with_id(output_id),
                ) {
                    None => res is None && *final(self) == *old(self),
                    Some(k) => {
                        let o = old(self).restreams@[j].outputs@[k];
                        match mixin_id {
                            None => {
                                &&& res == Some(o.volume != volume)
                                &&& only_output(*final(self), *old(self), j, k, (Output { volume, ..o }))
                            },
                            Some(mid) => match first_where(o.mixins@, mixin_with_id(mid)) {
                                None => res is None && *final(self) == *old(self),
                                Some(m) => {
                                    let x = final(self).restreams@[j].outputs@[k];
                                    &&& res == Some(o.mixins@[m].volume != volume)
                                    &&& only_output(*final(self), *old(self), j, k, x)
                                    &&& mixins_changed(x, o)
                                    &&& x.mixins@ == o.mixins@.update(
                                        m,
                                        (Mixin { volume, ..o.mixins@[m] }),
                                    )
                                },
                            },
                        }
                    },
                },
            },
    {
        let j = match find_restream(&self.restreams, restream_id) {
            None => {
                return None;
            },
            Some(j) => j,
        };
        let k = match find_output(&self.restreams[j].outputs, output_id) {
            None => {
                return None;
            },
            Some(k) => k,
        };
        let ghost rs = self.restreams@;
        let ghost os = rs[j as int].outputs@;
        let ghost o = os[k as int];
        match mixin_id {
            None => {
                if self.restreams[j].outputs[k].volume == volume {
                    assert(os =~= os.update(k as int, (Output { volume, ..o })));
                    assert(self.restreams@ =~= rs.update(j as int, self.restreams@[j as int]));
                    return Some(false);
                }
                self.restreams[j].outputs[k].volume = volume;
                assert(self.restreams@ =~= rs.update(j as int, self.restreams@[j as int]));
                assert(self.restreams@[j as int].outputs@ =~= os.update(
                    k as int,
                    (Output { volume, ..o }),
                ));
                Some(true)
            },
            Some(mid) => {
                let m = match find_mixin(&self.restreams[j].outputs[k].mixins, mid) {
                    None => {
                        return None;
                    },
                    Some(m) => m,
                };
                if self.restreams[j].outputs[k].mixins[m].volume == volume {
                    assert(o.mixins@ =~= o.mixins@.update(
                        m as int,
                        (Mixin { volume, ..o.mixins@[m as int] }),
                    ));
                    assert(os =~= os.update(k as int, o));
                    assert(self.restreams@ =~= rs.update(j as int, self.restreams@[j as int]));
                    return Some(false);
                }
                self.restreams[j].outputs[k].mixins[m].volume = volume;
                assert(self.restreams@ =~= rs.update(j as int, self.restreams@[j as int]));
                assert(self.restreams@[j as int].outputs@ =~= os.update(
                    k as int,
                    self.restreams@[j as int].outputs@[k as int],
                ));
                assert(self.restreams@[j as int].outputs@[k as int].mixins@ =~= o.mixins@.update(
                    m as int,
                    (Mixin { volume, ..o.mixins@[m as int] }),
                ));
                Some(true)
            },
        }
    }

    /// Tunes the delay of the mixin with the given ID of the output with the
    /// given ID of the re-stream with the given ID. Returns whether the delay
    /// has changed, or `None` if there is no such re-stream, output or mixin.
    pub fn tune_delay(
        &mut self,
        restream_id: RestreamId,
        output_id: OutputId,
        mixin_id: MixinId,
        delay: Delay,
    ) -> (res: Option<bool>)
        ensures
            match first_where(old(self).restreams@, restream_with_id(restream_id)) {
                None => res is None && *final(self) == *old(self),
                Some(j) => match first_where(
                    old(self).restreams@[j].outputs@,
                    output_with_id(output_id),
                ) {
                    None => res is None && *final(self) == *old(self),
                    Some(k) => {
                        let o = old(self).restreams@[j].outputs@[k];
                        match first_where(o.mixins@, mixin_with_id(mixin_id)) {
                            None => res is None && *final(self) == *old(self),
                            Some(m) => {
                                let x = final(self).restreams@[j].outputs@[k];
                                &&& res == Some(o.mixins@[m].delay != delay)
                                &&& only_output(*final(self), *old(self), j, k, x)
                                &&& mixins_changed(x, o)
                                &&& x.mixins@ == o.mixins@.update(
                                    m,
                                    (Mixin { delay, ..o.mixins@[m] }),
                                )
                            },
                        }
                    },
                },
            },
    {
        let j = match find_restream(&self.restreams, restream_id) {
            None => {
                return None;
            },
            Some(j) => j,
        };
        let k = match find_output(&self.restreams[j].outputs, output_id) {
            None => {
                return None;
            },
            Some(k) => k,
        };
        let m = match find_mixin(&self.restreams[j].outputs[k].mixins, mixin_id) {
            None => {
                return None;
            },
            Some(m) => m,
        };
        let ghost rs = self.restreams@;
        let ghost os = rs[j as int].outputs@;
        let ghost o = os[k as int];
        if self.restreams[j].outputs[k].mixins[m].delay == delay {
            assert(o.mixins@ =~= o.mixins@.update(
                m as int,
                (Mixin { delay, ..o.mixins@[m as int] }),
            ));
            assert(os =~= os.update(k as int, o));
            assert(self.restreams@ =~= rs.update(j as int, self.restreams@[j as int]));
            return Some(false);
        }
        self.restreams[j].outputs[k].mixins[m].delay = delay;
        assert(self.restreams@ =~= rs.update(j as int, self.restreams@[j as int]));
        assert(self.restreams@[j as int].outputs@ =~= os.update(
            k as int,
            self.restreams@[j as int].outputs@[k as int],
        ));
        assert(self.restreams@[j as int].outputs@[k as int].mixins@ =~= o.mixins@.update(
            m as int,
            (Mixin { delay, ..o.mixins@[m as int] }),
        ));
        Some(true)
    }
}

/// Exporting a re-stream made of a specification gives back what the
/// specification says.
pub proof fn lemma_restream_export_made(r: Restream, s: spec::v1::Restream, t: spec::v1::Restream)
    requires
        r.made(s),
        restream_exported(t, r),
    ensures
        spec::v1::restream_same(t, s),
{
    lemma_input_export_made(r.input, s.input, t.input);
    assert forall|m: int| 0 <= m < t.outputs@.len() implies spec::v1::output_same(
        #[trigger] t.outputs@[m],
        s.outputs@[m],
    ) by {
        let o = r.outputs@[m];
        assert(o.made(s.outputs@[m]));
        assert(output_exported(t.outputs@[m], o));
        assert forall|q: int| 0 <= q < t.outputs@[m].mixins@.len() implies spec::v1::mixin_same(
            #[trigger] t.outputs@[m].mixins@[q],
            s.outputs@[m].mixins@[q],
        ) by {
            assert(o.mixins@[q].made(s.outputs@[m].mixins@[q]));
            assert(mixin_exported(t.outputs@[m].mixins@[q], o.mixins@[q]));
        }
    }
}

/// Importing a specification by replacement into a state without
/// re-streams, and exporting the result, gives back what the specification
/// says.
pub proof fn lemma_import_export(
    news: Seq<spec::v1::Restream>,
    rs: Seq<Restream>,
    out: Seq<spec::v1::Restream>,
)
    requires
        replace_merged(Seq::<Restream>::empty(), news, rs),
        out.len() == rs.len(),
        forall|m: int| 0 <= m < out.len() ==> restream_exported(#[trigger] out[m], rs[m]),
    ensures
        out.len() == news.len(),
        forall|m: int| 0 <= m < news.len() ==> spec::v1::restream_same(#[trigger] out[m], news[m]),
{
    lemma_replace_plan_empty::<Restream>(news);
    assert forall|m: int| 0 <= m < news.len() implies spec::v1::restream_same(
        #[trigger] out[m],
        news[m],
    ) by {
        assert(replace_plan(Seq::<Restream>::empty(), news).0[m] is None);
        assert(rs[m].made(news[m]));
        assert(restream_exported(out[m], rs[m]));
        lemma_restream_export_made(rs[m], news[m], out[m]);
    }
}

/// Whether no two re-streams have the same key.
pub open spec fn keys_unique(rs: Seq<Restream>) -> bool {
    forall|a: int, b: int|
        0 <= a < b < rs.len() ==> (#[trigger] rs[a]).key.view() != (#[trigger] rs[b]).key.view()
}

/// Adding a re-stream keeps the keys of the re-streams unique.
pub proof fn lemma_add_restream_keys_unique(olds: Seq<Restream>, news: Seq<Restream>, s: spec::v1::Restream)
    requires
        keys_unique(olds),
        !key_used(olds, s.key.view(), None),
        news.drop_last() == olds,
        news.len() == olds.len() + 1,
        news.last().made(s),
    ensures
        keys_unique(news),
{
    assert forall|a: int, b: int| 0 <= a < b < news.len() implies (#[trigger] news[a]).key.view()
        != (#[trigger] news[b]).key.view() by {
        if b == news.len() - 1 {
            assert(news[a] == olds[a]);
        } else {
            assert(news[a] == olds[a]);
            assert(news[b] == olds[b]);
        }
    }
}

/// Whether no two re-streams have the same ID.
pub open spec fn restream_ids_unique(rs: Seq<Restream>) -> bool {
    forall|a: int, b: int| 0 <= a < b < rs.len() ==> (#[trigger] rs[a]).id != (#[trigger] rs[b]).id
}

/// Whether no two outputs have the same ID.
pub open spec fn output_ids_unique(os: Seq<Output>) -> bool {
    forall|a: int, b: int| 0 <= a < b < os.len() ==> (#[trigger] os[a]).id != (#[trigger] os[b]).id
}

/// Editing the re-stream with the given ID keeps the keys of the re-streams
/// unique (where their IDs are unique).
pub proof fn lemma_edit_restream_keys_unique(
    olds: Seq<Restream>,
    news: Seq<Restream>,
    id: RestreamId,
    s: spec::v1::Restream,
)
    requires
        keys_unique(olds),
        restream_ids_unique(olds),
        !key_used(olds, s.key.view(), Some(id)),
        first_where(olds, restream_with_id(id)) matches Some(j) && news == olds.update(j, news[j])
            && news[j].updated(olds[j], s, false),
    ensures
        keys_unique(news),
{
    let j = first_where(olds, restream_with_id(id))->Some_0;
    assert(is_first_where(olds, restream_with_id(id), j));
    assert forall|a: int, b: int| 0 <= a < b < news.len() implies (#[trigger] news[a]).key.view()
        != (#[trigger] news[b]).key.view() by {
        if a == j {
            assert(news[b] == olds[b]);
            assert(olds[b].id != olds[j].id);
        } else if b == j {
            assert(news[a] == olds[a]);
            assert(olds[a].id != olds[j].id);
        } else {
            assert(news[a] == olds[a]);
            assert(news[b] == olds[b]);
        }
    }
}

/// Whether no two outputs have destination URLs of the same text.
pub open spec fn dsts_unique(os: Seq<Output>) -> bool {
    forall|a: int, b: int|
        0 <= a < b < os.len() ==> (#[trigger] os[a]).dst.view().text != (#[trigger] os[b]).dst.view().text
}

/// Adding an output keeps the destination URLs of the outputs unique.
pub proof fn lemma_add_output_dsts_unique(olds: Seq<Output>, news: Seq<Output>, s: spec::v1::Output)
    requires
        dsts_unique(olds),
        !dst_used(olds, s.dst.view().text, None),
        news.drop_last() == olds,
        news.len() == olds.len() + 1,
        news.last().made(s),
    ensures
        dsts_unique(news),
{
    assert forall|a: int, b: int| 0 <= a < b < news.len() implies (#[trigger] news[a]).dst.view().text
        != (#[trigger] news[b]).dst.view().text by {
        assert(news[a] == olds[a]);
        if b < news.len() - 1 {
            assert(news[b] == olds[b]);
        }
    }
}

/// Editing the output with the given ID keeps the destination URLs of the
/// outputs unique (where their IDs are unique).
pub proof fn lemma_edit_output_dsts_unique(
    olds: Seq<Output>,
    news: Seq<Output>,
    id: OutputId,
    s: spec::v1::Output,
)
    requires
        dsts_unique(olds),
        output_ids_unique(olds),
        !dst_used(olds, s.dst.view().text, Some(id)),
        first_where(olds, output_with_id(id)) matches Some(k) && news == olds.update(k, news[k])
            && news[k].updated(olds[k], s, true),
    ensures
        dsts_unique(news),
{
    let k = first_where(olds, output_with_id(id))->Some_0;
    assert(is_first_where(olds, output_with_id(id), k));
    assert forall|a: int, b: int| 0 <= a < b < news.len() implies (#[trigger] news[a]).dst.view().text
        != (#[trigger] news[b]).dst.view().text by {
        if a == k {
            assert(news[b] == olds[b]);
            assert(olds[b].id != olds[k].id);
        } else if b == k {
            assert(news[a] == olds[a]);
            assert(olds[a].id != olds[k].id);
        } else {
            assert(news[a] == olds[a]);
            assert(news[b] == olds[b]);
        }
    }
}

/// After removing the re-streams with the given ID, none is left.
pub proof fn lemma_removed_restreams_gone(rs: Seq<Restream>, id: RestreamId)
    ensures
        forall|m: int|
            0 <= m < rs.filter(restream_without_id(id)).len() ==> (#[trigger] rs.filter(
                restream_without_id(id),
            )[m]).id != id,
{
    assert forall|m: int| 0 <= m < rs.filter(restream_without_id(id)).len() implies (#[trigger] rs.filter(
        restream_without_id(id),
    )[m]).id != id by {
        rs.lemma_filter_pred(restream_without_id(id), m);
    }
}

} // verus!

//! Version 1 of the shareable specification of the re-streaming state.

use vstd::prelude::*;

use crate::restreamer::state::{
    label_view, Delay, InputEndpointKind, InputKey, InputSrcUrl, Label, MixinSrcUrl, OutputDstUrl,
    RestreamKey, Volume,
};

verus! {

/// Specification of the whole re-streaming state.
#[derive(Debug)]
pub struct Spec {
    /// Re-streams.
    pub restreams: Vec<Restream>,
}

/// Specification of a re-stream.
#[derive(Debug)]
pub struct Restream {
    /// Key of the re-stream.
    pub key: RestreamKey,
    /// Label of the re-stream.
    pub label: Option<Label>,
    /// Input of the re-stream.
    pub input: Input,
    /// Outputs of the re-stream.
    pub outputs: Vec<Output>,
}

/// Specification of an input.
#[derive(Debug)]
pub struct Input {
    /// Key of the input.
    pub key: InputKey,
    /// Endpoints of the input.
    pub endpoints: Vec<InputEndpoint>,
    /// Source to pull a live stream from, if any.
    pub src: Option<InputSrc>,
    /// Whether the input is enabled.
    pub enabled: bool,
}

/// Specification of an input endpoint.
#[derive(Clone, Copy, Debug)]
pub struct InputEndpoint {
    /// Kind of the endpoint.
    pub kind: InputEndpointKind,
}

/// Specification of a source to pull a live stream from.
#[derive(Debug)]
pub enum InputSrc {
    /// A remote endpoint.
    RemoteUrl(InputSrcUrl),
    /// Local inputs forming a failover source.
    FailoverInputs(Vec<Input>),
}

/// Specification of an output.
#[derive(Debug)]
pub struct Output {
    /// Destination URL.
    pub dst: OutputDstUrl,
    /// Label of the output.
    pub label: Option<Label>,
    /// Volume rate of the output's audio.
    pub volume: Volume,
    /// Sources to mix the output with.
    pub mixins: Vec<Mixin>,
    /// Whether the output is enabled.
    pub enabled: bool,
}

/// Specification of a source mixed into an output.
#[derive(Debug)]
pub struct Mixin {
    /// Source URL.
    pub src: MixinSrcUrl,
    /// Volume rate of the source's audio.
    pub volume: Volume,
    /// Delay before mixing the source in.
    pub delay: Delay,
}

/// Whether two specifications of inputs say the same: the same texts,
/// kinds and flags.
pub open spec fn input_same(a: Input, b: Input) -> bool
    decreases b,
{
    &&& a.key.view() == b.key.view()
    &&& a.enabled == b.enabled
    &&& a.endpoints@.len() == b.endpoints@.len()
    &&& forall|m: int|
        0 <= m < a.endpoints@.len() ==> (#[trigger] a.endpoints@[m]).kind == b.endpoints@[m].kind
    &&& match b.src {
        None => a.src is None,
        Some(InputSrc::RemoteUrl(v)) => a.src matches Some(InputSrc::RemoteUrl(u)) && u.view()
            == v.view(),
        Some(InputSrc::FailoverInputs(w)) => a.src matches Some(InputSrc::FailoverInputs(x))
            && inputs_same(x@, w@),
    }
}

/// Whether two lists of specifications of inputs say the same, one by one.
pub open spec fn inputs_same(a: Seq<Input>, b: Seq<Input>) -> bool
    decreases b,
{
    &&& a.len() == b.len()
    &&& b.len() > 0 ==> {
        &&& inputs_same(a.drop_last(), b.subrange(0, b.len() - 1))
        &&& input_same(a.last(), b[b.len() - 1])
    }
}

/// Whether two specifications of mixins say the same.
pub open spec fn mixin_same(a: Mixin, b: Mixin) -> bool {
    &&& a.src.view() == b.src.view()
    &&& a.volume == b.volume
    &&& a.delay == b.delay
}

/// Whether two specifications of outputs say the same.
pub open spec fn output_same(a: Output, b: Output) -> bool {
    &&& a.dst.view() == b.dst.view()
    &&& label_view(a.label) == label_view(b.label)
    &&& a.volume == b.volume
    &&& a.enabled == b.enabled
    &&& a.mixins@.len() == b.mixins@.len()
    &&& forall|m: int| 0 <= m < a.mixins@.len() ==> mixin_same(#[trigger] a.mixins@[m], b.mixins@[m])
}

/// Whether two specifications of re-streams say the same.
pub open spec fn restream_same(a: Restream, b: Restream) -> bool {
    &&& a.key.view() == b.key.view()
    &&& label_view(a.label) == label_view(b.label)
    &&& input_same(a.input, b.input)
    &&& a.outputs@.len() == b.outputs@.len()
    &&& forall|m: int|
        0 <= m < a.outputs@.len() ==> output_same(#[trigger] a.outputs@[m], b.outputs@[m])
}

} // verus!

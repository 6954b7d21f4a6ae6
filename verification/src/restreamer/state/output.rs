//! Outputs of a re-stream, and the sources mixed into them.

use vstd::prelude::*;

use crate::restreamer::merge::{append_merged, merge_append, merge_replace, replace_merged, Mergeable};
use crate::restreamer::spec::v1 as spec;
use crate::restreamer::state::{
    clone_label, label_view, Delay, Label, MixinId, MixinSrcUrl, OutputDstUrl, OutputId, Status,
    Volume,
};

verus! {

/// Additional source mixed into an [`Output`] before re-streaming it.
#[derive(Debug)]
pub struct Mixin {
    /// Unique ID of this mixin; it never changes.
    pub id: MixinId,
    /// URL of the source.
    pub src: MixinSrcUrl,
    /// Volume rate of the source's audio.
    pub volume: Volume,
    /// Delay before the source is mixed in.
    pub delay: Delay,
    /// Whether the source actually provides media to be mixed in.
    pub status: Status,
}

impl Mergeable for Mixin {
    type Spec = spec::Mixin;

    /// A mixin is described by a specification of its source URL.
    open spec fn matched_by(self, s: spec::Mixin) -> bool {
        self.src.view().text == s.src.view().text
    }

    /// The source, the volume and the delay come from the specification.
    open spec fn updated(self, old: Mixin, s: spec::Mixin, replace: bool) -> bool {
        &&& self.id == old.id
        &&& self.status == old.status
        &&& self.src == s.src
        &&& self.volume == s.volume
        &&& self.delay == s.delay
    }

    /// A new mixin is offline.
    open spec fn made(self, s: spec::Mixin) -> bool {
        &&& self.src == s.src
        &&& self.volume == s.volume
        &&& self.delay == s.delay
        &&& self.status == Status::Offline
    }

    fn matches(&self, s: &spec::Mixin) -> (res: bool) {
        self.src.same(&s.src)
    }

    fn update(&mut self, s: spec::Mixin, replace: bool) {
        self.apply(s);
    }

    fn make(s: spec::Mixin) -> (res: Mixin) {
        Mixin::new(s)
    }
}

/// Whether the specification `s` is an export of the mixin `m`.
pub open spec fn mixin_exported(s: spec::Mixin, m: Mixin) -> bool {
    &&& s.src.view() == m.src.view()
    &&& s.volume == m.volume
    &&& s.delay == m.delay
}

impl Mixin {
    /// Creates a new mixin out of its specification: offline, with a new ID.
    pub fn new(spec: spec::Mixin) -> (res: Mixin)
        ensures
            res.made(spec),
    {
        Mixin {
            id: MixinId::random(),
            src: spec.src,
            volume: spec.volume,
            delay: spec.delay,
            status: Status::Offline,
        }
    }

    /// Applies the given specification to this mixin.
    pub fn apply(&mut self, new: spec::Mixin)
        ensures
            final(self).updated(*old(self), new, true),
            final(self).updated(*old(self), new, false),
    {
        self.src = new.src;
        self.volume = new.volume;
        self.delay = new.delay;
    }

    /// Exports this mixin as its specification.
    pub fn export(&self) -> (res: spec::Mixin)
        ensures
            mixin_exported(res, *self),
    {
        spec::Mixin { src: self.src.clone(), volume: self.volume, delay: self.delay }
    }
}

/// Downstream destination that a re-stream re-streams a live stream to.
#[derive(Debug)]
pub struct Output {
    /// Unique ID of this output; it never changes.
    pub id: OutputId,
    /// URL to re-stream the live stream onto.
    pub dst: OutputDstUrl,
    /// Label of this output, if any.
    pub label: Option<Label>,
    /// Volume rate of this output's audio when mixed with its mixins.
    pub volume: Volume,
    /// Sources to mix this output with before re-streaming it.
    pub mixins: Vec<Mixin>,
    /// Whether this output is allowed to re-stream.
    pub enabled: bool,
    /// Whether this output actually re-streams.
    pub status: Status,
}

/// Whether the mixins `ms` are made of the specifications `ss`, one by one.
pub open spec fn mixins_made(ms: Seq<Mixin>, ss: Seq<spec::Mixin>) -> bool {
    &&& ms.len() == ss.len()
    &&& forall|m: int| 0 <= m < ms.len() ==> (#[trigger] ms[m]).made(ss[m])
}

impl Mergeable for Output {
    type Spec = spec::Output;

    /// An output is described by a specification of its destination URL.
    open spec fn matched_by(self, s: spec::Output) -> bool {
        self.dst.view().text == s.dst.view().text
    }

    /// The destination, the label and the volume come from the
    /// specification, and the mixins are merged with the specified ones;
    /// `enabled` is kept as it is, so that ongoing re-streams are not broken.
    open spec fn updated(self, old: Output, s: spec::Output, replace: bool) -> bool {
        &&& self.id == old.id
        &&& self.status == old.status
        &&& self.enabled == old.enabled
        &&& self.dst == s.dst
        &&& self.label == s.label
        &&& self.volume == s.volume
        &&& if replace {
            replace_merged(old.mixins@, s.mixins@, self.mixins@)
        } else {
            append_merged(old.mixins@, s.mixins@, self.mixins@)
        }
    }

    /// A new output is offline, and its mixins are made of the specified
    /// ones.
    open spec fn made(self, s: spec::Output) -> bool {
        &&& self.dst == s.dst
        &&& self.label == s.label
        &&& self.volume == s.volume
        &&& self.enabled == s.enabled
        &&& self.status == Status::Offline
        &&& mixins_made(self.mixins@, s.mixins@)
    }

    fn matches(&self, s: &spec::Output) -> (res: bool) {
        self.dst.same(&s.dst)
    }

    fn update(&mut self, s: spec::Output, replace: bool) {
        self.apply(s, replace);
    }

    fn make(s: spec::Output) -> (res: Output) {
        Output::new(s)
    }
}

/// Whether the specification `s` is an export of the output `o`.
pub open spec fn output_exported(s: spec::Output, o: Output) -> bool {
    &&& s.dst.view() == o.dst.view()
    &&& label_view(s.label) == label_view(o.label)
    &&& s.volume == o.volume
    &&& s.enabled == o.enabled
    &&& s.mixins@.len() == o.mixins@.len()
    &&& forall|m: int| 0 <= m < s.mixins@.len() ==> mixin_exported(#[trigger] s.mixins@[m], o.mixins@[m])
}

/// Makes new mixins of the given specifications.
fn make_mixins(specs: Vec<spec::Mixin>) -> (res: Vec<Mixin>)
    ensures
        mixins_made(res@, specs@),
{
    let ghost all = specs@;
    let mut rest = specs;
    let mut res: Vec<Mixin> = Vec::new();
    while rest.len() > 0
        invariant
            res@.len() <= all.len(),
            rest@ == all.skip(res@.len() as int),
            forall|m: int| 0 <= m < res@.len() ==> (#[trigger] res@[m]).made(all[m]),
        decreases rest@.len(),
    {
        let ghost i = res@.len() as int;
        let n = rest.remove(0);
        assert(n == all[i]);
        res.push(Mixin::new(n));
        assert(rest@ =~= all.skip(res@.len() as int));
    }
    res
}

impl Output {
    /// Creates a new output out of its specification: offline, with new IDs.
    pub fn new(spec: spec::Output) -> (res: Output)
        ensures
            res.made(spec),
    {
        let spec::Output { dst, label, volume, mixins, enabled } = spec;
        Output {
            id: OutputId::random(),
            dst,
            label,
            volume,
            mixins: make_mixins(mixins),
            enabled,
            status: Status::Offline,
        }
    }

    /// Applies the given specification to this output: its mixins are
    /// replaced by the specified ones if `replace` is `true`, or else merged
    /// with them.
    pub fn apply(&mut self, new: spec::Output, replace: bool)
        ensures
            final(self).updated(*old(self), new, replace),
    {
        let spec::Output { dst, label, volume, mixins, enabled: _ } = new;
        self.dst = dst;
        self.label = label;
        self.volume = volume;
        if replace {
            let mut olds: Vec<Mixin> = Vec::new();
            std::mem::swap(&mut olds, &mut self.mixins);
            self.mixins = merge_replace(olds, mixins);
        } else {
            merge_append(&mut self.mixins, mixins);
        }
    }

    /// Exports this output as its specification.
    pub fn export(&self) -> (res: spec::Output)
        ensures
            output_exported(res, *self),
    {
        let mut mixins: Vec<spec::Mixin> = Vec::new();
        let mut k: usize = 0;
        while k < self.mixins.len()
            invariant
                k <= self.mixins@.len(),
                mixins@.len() == k,
                forall|m: int| 0 <= m < k ==> mixin_exported(#[trigger] mixins@[m], self.mixins@[m]),
            decreases self.mixins@.len() - k,
        {
            mixins.push(self.mixins[k].export());
            k = k + 1;
        }
        spec::Output {
            dst: self.dst.clone(),
            label: clone_label(&self.label),
            volume: self.volume,
            mixins,
            enabled: self.enabled,
        }
    }
}

} // verus!

//! When a running FFmpeg process must be restarted to become the one that
//! the state asks for, and which volumes a mixing process tunes in place
//! instead.

use vstd::prelude::*;

use crate::restreamer::ffmpeg::{
    CopyRestreamer, Mixin, MixingRestreamer, RestreamerKind, TranscodingRestreamer,
};
use crate::restreamer::state::{uuid_string, uuid_text, Volume};
use crate::text::{decimal, decimal2, push_str, str_eq};
use crate::weburl::opt_view;

verus! {

/// Volume to set in a running mixing process: the `volume` filter of the
/// track `track` listens on the port `port`.
#[derive(Clone, Copy, Debug, PartialEq, Eq, Structural)]
pub struct VolumeTune {
    /// ID of the track.
    pub track: u128,
    /// Port of the `azmq` filter of the track.
    pub port: u16,
    /// Volume to set.
    pub volume: Volume,
}

/// A volume as a fraction of one: `100%` as `1.00`.
pub open spec fn fraction_text(v: Volume) -> Seq<char> {
    decimal(v.rate() / 100) + seq!['.'] + decimal2(v.rate() % 100)
}

/// Text of the ZeroMQ message that sets the volume of a track.
pub open spec fn tune_text(track: u128, v: Volume) -> Seq<char> {
    "volume@"@ + uuid_text(track) + " volume "@ + fraction_text(v)
}

impl VolumeTune {
    /// Text of the ZeroMQ message that performs this tuning.
    pub fn message(&self) -> (res: String)
        ensures
            res@ == tune_text(self.track, self.volume),
    {
        let mut res = String::new();
        push_str(&mut res, "volume@");
        let id = uuid_string(self.track);
        push_str(&mut res, id.as_str());
        push_str(&mut res, " volume ");
        let v = self.volume.display_as_fraction();
        push_str(&mut res, v.as_str());
        res
    }
}

/// Whether two optional texts are the same.
fn opt_str_eq(a: &Option<String>, b: &Option<String>) -> (res: bool)
    ensures
        res == (opt_view(*a) == opt_view(*b)),
{
    match (a, b) {
        (Some(x), Some(y)) => str_eq(x.as_str(), y.as_str()),
        (None, None) => true,
        _ => false,
    }
}

impl CopyRestreamer {
    /// Whether this process must be restarted to become the `actual` one:
    /// when it pulls from or publishes to another URL.
    pub fn needs_restart(&self, actual: &CopyRestreamer) -> (res: bool)
        ensures
            res == (self.from_url@ != actual.from_url@ || self.to_url.url@ != actual.to_url.url@),
    {
        !str_eq(self.from_url.as_str(), actual.from_url.as_str()) || !str_eq(
            self.to_url.url.as_str(),
            actual.to_url.url.as_str(),
        )
    }
}

/// Whether two transcoding processes are the same in every field.
pub open spec fn same_transcoding(a: TranscodingRestreamer, b: TranscodingRestreamer) -> bool {
    &&& a.id == b.id
    &&& a.from_url@ == b.from_url@
    &&& a.to_url.url@ == b.to_url.url@
    &&& a.to_url.sink == b.to_url.sink
    &&& opt_view(a.vcodec) == opt_view(b.vcodec)
    &&& opt_view(a.vpreset) == opt_view(b.vpreset)
    &&& opt_view(a.vprofile) == opt_view(b.vprofile)
    &&& opt_view(a.acodec) == opt_view(b.acodec)
}

impl TranscodingRestreamer {
    /// Whether this process must be restarted to become the `actual` one:
    /// when they differ in anything.
    pub fn needs_restart(&self, actual: &TranscodingRestreamer) -> (res: bool)
        ensures
            res == !same_transcoding(*self, *actual),
    {
        !(self.id == actual.id && str_eq(self.from_url.as_str(), actual.from_url.as_str())
            && str_eq(self.to_url.url.as_str(), actual.to_url.url.as_str()) && self.to_url.sink
            == actual.to_url.sink && opt_str_eq(&self.vcodec, &actual.vcodec) && opt_str_eq(
            &self.vpreset,
            &actual.vpreset,
        ) && opt_str_eq(&self.vprofile, &actual.vprofile) && opt_str_eq(
            &self.acodec,
            &actual.acodec,
        ))
    }
}

/// Whether a mixin of a running process must be restarted to become the
/// `actual` one: when its URL or its delay differ.
pub open spec fn mixin_restarts(a: Mixin, b: Mixin) -> bool {
    a.url.view().text != b.url.view().text || a.delay != b.delay
}

/// Whether a mixing process must be restarted to become the `actual` one:
/// when it pulls from or publishes to another URL, mixes another number of
/// mixins, or a mixin must be restarted.
pub open spec fn mixing_restarts(a: MixingRestreamer, b: MixingRestreamer) -> bool {
    ||| a.from_url@ != b.from_url@
    ||| a.to_url.url@ != b.to_url.url@
    ||| a.mixins@.len() != b.mixins@.len()
    ||| exists|i: int| 0 <= i < a.mixins@.len() && mixin_restarts(#[trigger] a.mixins@[i], b.mixins@[i])
}

/// Tunings of the first `n` mixins `cur` to the volumes of the `act` ones:
/// one for each mixin whose volume differs, in order.
pub open spec fn mixin_tunes(cur: Seq<Mixin>, act: Seq<Mixin>, n: nat) -> Seq<VolumeTune>
    decreases n,
{
    if n == 0 {
        Seq::empty()
    } else {
        let k = n - 1;
        mixin_tunes(cur, act, (n - 1) as nat) + if cur[k].volume != act[k].volume {
            seq![VolumeTune { track: cur[k].id.0, port: cur[k].zmq_port, volume: act[k].volume }]
        } else {
            Seq::empty()
        }
    }
}

/// Tunings of a running mixing process to the volumes of the `act` one: its
/// own audio first, if its volume differs, then its mixins.
pub open spec fn mixing_tunes(cur: MixingRestreamer, act: MixingRestreamer) -> Seq<VolumeTune> {
    (if cur.orig_volume != act.orig_volume {
        seq![VolumeTune { track: cur.id, port: cur.orig_zmq_port, volume: act.orig_volume }]
    } else {
        Seq::empty()
    }) + mixin_tunes(cur.mixins@, act.mixins@, cur.mixins@.len())
}

/// Whether `m` is the mixin `cur` with the volume `v`.
pub open spec fn mixin_with_volume(m: Mixin, cur: Mixin, v: Volume) -> bool {
    &&& m.id == cur.id
    &&& m.url == cur.url
    &&& m.delay == cur.delay
    &&& m.zmq_port == cur.zmq_port
    &&& m.teamspeak == cur.teamspeak
    &&& m.volume == v
}

/// Whether `new` is the running mixing process `cur` with the volumes of
/// the `act` one.
pub open spec fn mixing_tuned(new: MixingRestreamer, cur: MixingRestreamer, act: MixingRestreamer) -> bool {
    &&& new.id == cur.id
    &&& new.from_url == cur.from_url
    &&& new.to_url == cur.to_url
    &&& new.orig_zmq_port == cur.orig_zmq_port
    &&& new.orig_volume == act.orig_volume
    &&& new.mixins@.len() == cur.mixins@.len()
    &&& forall|i: int|
        0 <= i < cur.mixins@.len() ==> mixin_with_volume(
            #[trigger] new.mixins@[i],
            cur.mixins@[i],
            act.mixins@[i].volume,
        )
}

impl MixingRestreamer {
    /// Whether this process must be restarted to become the `actual` one.
    /// When it need not, it takes the volumes of the `actual` one and
    /// appends to `tunes` the tunings that FFmpeg is to be sent.
    pub fn needs_restart(&mut self, actual: &MixingRestreamer, tunes: &mut Vec<VolumeTune>) -> (res:
        bool)
        ensures
            res == mixing_restarts(*old(self), *actual),
            res ==> *final(self) == *old(self) && final(tunes)@ == old(tunes)@,
            !res ==> mixing_tuned(*final(self), *old(self), *actual) && final(tunes)@ == old(
                tunes,
            )@ + mixing_tunes(*old(self), *actual),
    {
        if !str_eq(self.from_url.as_str(), actual.from_url.as_str()) || !str_eq(
            self.to_url.url.as_str(),
            actual.to_url.url.as_str(),
        ) || self.mixins.len() != actual.mixins.len() {
            return true;
        }
        let mut i: usize = 0;
        while i < self.mixins.len()
            invariant
                i <= self.mixins@.len(),
                self.mixins@.len() == actual.mixins@.len(),
                forall|j: int| 0 <= j < i ==> !mixin_restarts(#[trigger] self.mixins@[j], actual.mixins@[j]),
            decreases self.mixins@.len() - i,
        {
            if self.mixins[i].needs_restart(&actual.mixins[i]) {
                return true;
            }
            i = i + 1;
        }
        let ghost cur = *self;
        let ghost start = tunes@;
        if self.orig_volume != actual.orig_volume {
            self.orig_volume = actual.orig_volume;
            tunes.push(VolumeTune { track: self.id, port: self.orig_zmq_port, volume: self.orig_volume });
        }
        let ghost first = tunes@;
        assert(first == start + (if cur.orig_volume != actual.orig_volume {
            seq![VolumeTune { track: cur.id, port: cur.orig_zmq_port, volume: actual.orig_volume }]
        } else {
            Seq::<VolumeTune>::empty()
        }));
        let mut i: usize = 0;
        while i < self.mixins.len()
            invariant
                i <= self.mixins@.len(),
                self.mixins@.len() == cur.mixins@.len(),
                cur.mixins@.len() == actual.mixins@.len(),
                self.id == cur.id,
                self.from_url == cur.from_url,
                self.to_url == cur.to_url,
                self.orig_zmq_port == cur.orig_zmq_port,
                self.orig_volume == actual.orig_volume,
                forall|j: int|
                    0 <= j < i ==> mixin_with_volume(
                        #[trigger] self.mixins@[j],
                        cur.mixins@[j],
                        actual.mixins@[j].volume,
                    ),
                forall|j: int| i <= j < self.mixins@.len() ==> #[trigger] self.mixins@[j] == cur.mixins@[j],
                tunes@ == first + mixin_tunes(cur.mixins@, actual.mixins@, i as nat),
            decreases self.mixins@.len() - i,
        {
            let v = actual.mixins[i].volume;
            if self.mixins[i].volume != v {
                self.mixins[i].volume = v;
                tunes.push(
                    VolumeTune { track: self.mixins[i].id.0, port: self.mixins[i].zmq_port, volume: v },
                );
            }
            proof {
                assert(tunes@ =~= first + mixin_tunes(cur.mixins@, actual.mixins@, (i + 1) as nat));
            }
            i = i + 1;
        }
        proof {
            assert(tunes@ =~= start + mixing_tunes(cur, *actual));
        }
        false
    }
}

/// Whether a running process of the kind `a` must be restarted to become
/// one of the kind `b`: always when the kinds differ.
pub open spec fn kind_restarts(a: RestreamerKind, b: RestreamerKind) -> bool {
    match (a, b) {
        (RestreamerKind::Copy(x), RestreamerKind::Copy(y)) => x.from_url@ != y.from_url@
            || x.to_url.url@ != y.to_url.url@,
        (RestreamerKind::Transcoding(x), RestreamerKind::Transcoding(y)) => !same_transcoding(x, y),
        (RestreamerKind::Mixing(x), RestreamerKind::Mixing(y)) => mixing_restarts(x, y),
        _ => true,
    }
}

/// Tunings that bringing a running process of the kind `cur` to the `act`
/// one in place takes: those of a mixing process, none for another one.
pub open spec fn kind_tunes(cur: RestreamerKind, act: RestreamerKind) -> Seq<VolumeTune> {
    match (cur, act) {
        (RestreamerKind::Mixing(x), RestreamerKind::Mixing(y)) => mixing_tunes(x, y),
        _ => Seq::empty(),
    }
}

/// Whether the running process `new` is `cur` brought to the `act` one in
/// place: a mixing process takes the new volumes, any other one stays as it
/// is.
pub open spec fn kind_tuned(new: RestreamerKind, cur: RestreamerKind, act: RestreamerKind) -> bool {
    match (cur, act) {
        (RestreamerKind::Mixing(x), RestreamerKind::Mixing(y)) => {
            &&& new matches RestreamerKind::Mixing(n)
            &&& mixing_tuned(n, x, y)
        },
        _ => new == cur,
    }
}

impl RestreamerKind {
    /// Whether this running process must be restarted to become the `actual`
    /// one. When it need not, it is brought to the `actual` one in place,
    /// and the tunings that FFmpeg is to be sent are appended to `tunes`.
    pub fn needs_restart(&mut self, actual: &RestreamerKind, tunes: &mut Vec<VolumeTune>) -> (res: bool)
        ensures
            res == kind_restarts(*old(self), *actual),
            res ==> *final(self) == *old(self) && final(tunes)@ == old(tunes)@,
            !res ==> kind_tuned(*final(self), *old(self), *actual) && final(tunes)@ == old(tunes)@
                + kind_tunes(*old(self), *actual),
    {
        match self {
            RestreamerKind::Copy(c) => match actual {
                RestreamerKind::Copy(a) => {
                    let r = c.needs_restart(a);
                    proof {
                        assert(old(tunes)@ + Seq::<VolumeTune>::empty() =~= old(tunes)@);
                    }
                    r
                },
                _ => true,
            },
            RestreamerKind::Transcoding(t) => match actual {
                RestreamerKind::Transcoding(a) => {
                    let r = t.needs_restart(a);
                    proof {
                        assert(old(tunes)@ + Seq::<VolumeTune>::empty() =~= old(tunes)@);
                    }
                    r
                },
                _ => true,
            },
            RestreamerKind::Mixing(m) => match actual {
                RestreamerKind::Mixing(a) => m.needs_restart(a, tunes),
                _ => true,
            },
        }
    }
}

} // verus!

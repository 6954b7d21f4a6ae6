//! Applying the same re-streams to the pool again restarts nothing and
//! tunes nothing: the processes that the pool runs are already the ones
//! that the re-streams need.

use vstd::prelude::*;

use crate::restreamer::ffmpeg::{
    demands, entry_made, entry_of, found_at, ids_unique, kind_restarts, kind_tuned, kind_tunes,
    last_active, mixin_tunes, mixing_restarts, mixing_tunes, point_active, point_id, pool_after,
    same_transcoding, settled, Mixin, MixingRestreamer, Point, RestreamerKind, Running, VolumeTune,
};

verus! {

/// Whether two mixing processes pull from and publish to the same URLs, and
/// mix the same mixins (by URL and delay) at the same volumes.
pub open spec fn mixing_alike(a: MixingRestreamer, b: MixingRestreamer) -> bool {
    &&& a.from_url@ == b.from_url@
    &&& a.to_url.url@ == b.to_url.url@
    &&& a.orig_volume == b.orig_volume
    &&& a.mixins@.len() == b.mixins@.len()
    &&& forall|i: int|
        0 <= i < a.mixins@.len() ==> {
            &&& (#[trigger] a.mixins@[i]).url.view().text == b.mixins@[i].url.view().text
            &&& a.mixins@[i].delay == b.mixins@[i].delay
            &&& a.mixins@[i].volume == b.mixins@[i].volume
        }
}

/// Whether two processes do the same: one need not be restarted nor tuned
/// to become the other.
pub open spec fn kinds_alike(a: RestreamerKind, b: RestreamerKind) -> bool {
    match (a, b) {
        (RestreamerKind::Copy(x), RestreamerKind::Copy(y)) => x.from_url@ == y.from_url@
            && x.to_url.url@ == y.to_url.url@,
        (RestreamerKind::Transcoding(x), RestreamerKind::Transcoding(y)) => same_transcoding(x, y),
        (RestreamerKind::Mixing(x), RestreamerKind::Mixing(y)) => mixing_alike(x, y),
        _ => false,
    }
}

/// Tunings of mixins at the same volumes are none.
proof fn lemma_no_mixin_tunes(cur: Seq<Mixin>, act: Seq<Mixin>, n: nat)
    requires
        n <= cur.len(),
        n <= act.len(),
        forall|i: int| 0 <= i < n ==> (#[trigger] cur[i]).volume == act[i].volume,
    ensures
        mixin_tunes(cur, act, n) == Seq::<VolumeTune>::empty(),
    decreases n,
{
    if n > 0 {
        lemma_no_mixin_tunes(cur, act, (n - 1) as nat);
        assert(cur[n - 1].volume == act[n - 1].volume);
        assert(mixin_tunes(cur, act, n) =~= Seq::<VolumeTune>::empty());
    }
}

/// Processes that do the same need no restart and no tuning.
proof fn lemma_alike_settled(a: RestreamerKind, b: RestreamerKind)
    requires
        kinds_alike(a, b),
    ensures
        !kind_restarts(a, b),
        kind_tunes(a, b) == Seq::<VolumeTune>::empty(),
{
    match (a, b) {
        (RestreamerKind::Mixing(x), RestreamerKind::Mixing(y)) => {
            assert forall|i: int| 0 <= i < x.mixins@.len() implies !crate::restreamer::ffmpeg::mixin_restarts(
                #[trigger] x.mixins@[i],
                y.mixins@[i],
            ) by {}
            assert(!mixing_restarts(x, y));
            lemma_no_mixin_tunes(x.mixins@, y.mixins@, x.mixins@.len());
            assert(mixing_tunes(x, y) =~= Seq::<VolumeTune>::empty());
        },
        _ => {},
    }
}

/// Doing the same is transitive.
proof fn lemma_alike_trans(a: RestreamerKind, b: RestreamerKind, c: RestreamerKind)
    requires
        kinds_alike(a, b),
        kinds_alike(b, c),
    ensures
        kinds_alike(a, c),
{
    match (a, b, c) {
        (RestreamerKind::Mixing(x), RestreamerKind::Mixing(y), RestreamerKind::Mixing(z)) => {
            assert forall|i: int| 0 <= i < x.mixins@.len() implies {
                &&& (#[trigger] x.mixins@[i]).url.view().text == z.mixins@[i].url.view().text
                &&& x.mixins@[i].delay == z.mixins@[i].delay
                &&& x.mixins@[i].volume == z.mixins@[i].volume
            } by {
                assert(y.mixins@[i].url.view().text == z.mixins@[i].url.view().text);
            }
        },
        _ => {},
    }
}

/// Two processes that a point needs do the same, whatever process ran
/// before and whatever ports they took.
proof fn lemma_demands_alike(
    p: Point,
    k1: RestreamerKind,
    k2: RestreamerKind,
    root: Seq<char>,
    prev1: Option<RestreamerKind>,
    prev2: Option<RestreamerKind>,
    port1: u16,
    port2: u16,
)
    requires
        demands(p, k1, root, prev1, port1),
        demands(p, k2, root, prev2, port2),
    ensures
        kinds_alike(k1, k2),
{
    match (k1, k2) {
        (RestreamerKind::Mixing(x), RestreamerKind::Mixing(y)) => {
            let o = p->Output_1;
            assert forall|i: int| 0 <= i < x.mixins@.len() implies {
                &&& (#[trigger] x.mixins@[i]).url.view().text == y.mixins@[i].url.view().text
                &&& x.mixins@[i].delay == y.mixins@[i].delay
                &&& x.mixins@[i].volume == y.mixins@[i].volume
            } by {
                assert(x.mixins@[i].url.view() == o.mixins@[i].src.view());
                assert(y.mixins@[i].url.view() == o.mixins@[i].src.view());
            }
        },
        _ => {},
    }
}

/// A process made for a need does the same as the process needed.
proof fn lemma_made_alike(e: Running, found: Option<Running>, k: RestreamerKind)
    requires
        entry_made(e, found, k),
    ensures
        kinds_alike(e.kind, k),
{
    match found {
        Some(f) => {
            if !kind_restarts(f.kind, k) {
                match (f.kind, k) {
                    (RestreamerKind::Mixing(x), RestreamerKind::Mixing(y)) => {
                        let n = e.kind->Mixing_0;
                        assert forall|i: int| 0 <= i < n.mixins@.len() implies {
                            &&& (#[trigger] n.mixins@[i]).url.view().text == y.mixins@[i].url.view().text
                            &&& n.mixins@[i].delay == y.mixins@[i].delay
                            &&& n.mixins@[i].volume == y.mixins@[i].volume
                        } by {
                            assert(!crate::restreamer::ffmpeg::mixin_restarts(x.mixins@[i], y.mixins@[i]));
                        }
                    },
                    _ => {},
                }
            } else {
                lemma_alike_refl(k);
            }
        },
        None => {
            lemma_alike_refl(k);
        },
    }
}

/// A process does the same as itself.
proof fn lemma_alike_refl(k: RestreamerKind)
    ensures
        kinds_alike(k, k),
{
}

/// Whether no two points that need processes are for the same ID.
pub open spec fn active_ids_unique(ps: Seq<Point>) -> bool {
    forall|a: int, b: int|
        0 <= a < b < ps.len() && point_active(ps[a]) && point_active(ps[b]) ==> point_id(
            #[trigger] ps[a],
        ) != point_id(#[trigger] ps[b])
}

/// The last point that needs a process for an ID is the only one before
/// which none needs one for it, when no two points share an ID.
proof fn lemma_first_for_id(ps: Seq<Point>, i: int)
    requires
        active_ids_unique(ps),
        0 <= i < ps.len(),
        point_active(ps[i]),
    ensures
        last_active(ps.take(i), point_id(ps[i])) is None,
    decreases i,
{
    let qs = ps.take(i);
    if i > 0 {
        let id = point_id(ps[i]);
        assert(qs.last() == ps[i - 1]);
        assert(qs.drop_last() =~= ps.take(i - 1));
        if point_active(ps[i - 1]) {
            assert(point_id(ps[i - 1]) != id);
        }
        lemma_no_earlier(ps, i - 1, id);
    }
}

/// No point among the first `n` needs a process for an ID that a later
/// point needs one for, when no two points share an ID.
proof fn lemma_no_earlier(ps: Seq<Point>, n: int, id: u128)
    requires
        active_ids_unique(ps),
        0 <= n < ps.len(),
        exists|j: int| n <= j < ps.len() && point_active(ps[j]) && point_id(#[trigger] ps[j]) == id,
    ensures
        last_active(ps.take(n), id) is None,
    decreases n,
{
    if n > 0 {
        let j = choose|j: int| n <= j < ps.len() && point_active(ps[j]) && point_id(#[trigger] ps[j]) == id;
        assert(ps.take(n).last() == ps[n - 1]);
        assert(ps.take(n).drop_last() =~= ps.take(n - 1));
        if point_active(ps[n - 1]) {
            assert(point_id(ps[n - 1]) != point_id(ps[j]));
        }
        lemma_no_earlier(ps, n - 1, id);
    } else {
        assert(ps.take(0).len() == 0);
    }
}

/// Applying the same points twice (where no two of them need a process for
/// the same ID) leaves every process of the pool carried on, with nothing to
/// tune: the first application brought the pool to what the points need.
pub proof fn lemma_apply_twice(
    p0: Seq<Running>,
    ps: Seq<Point>,
    p1: Seq<Running>,
    p2: Seq<Running>,
    root: Seq<char>,
    l0: u16,
    l1: u16,
)
    requires
        active_ids_unique(ps),
        pool_after(p0, ps, p1, root, l0),
        pool_after(p1, ps, p2, root, l1),
    ensures
        forall|j: int| 0 <= j < p2.len() ==> !(#[trigger] p2[j]).fresh && p2[j].tunes@.len() == 0,
{
    assert forall|j: int| 0 <= j < p2.len() implies !(#[trigger] p2[j]).fresh && p2[j].tunes@.len() == 0 by {
        let id = p2[j].id;
        super::pool::lemma_entry_of(p2, id);
        let _ = last_active(ps, id);
        super::pool::lemma_last_active(ps, id);
        let i = last_active(ps, id)->Some_0;
        let e2 = p2[j];
        assert(entry_of(p2, id) == Some(e2));
        lemma_first_for_id(ps, i);
        let e1 = entry_of(p1, id)->Some_0;
        assert(found_at(p1, ps, i) == entry_of(p1, id));
        assert(found_at(p0, ps, i) == entry_of(p0, id));
        assert(settled(e1, ps[i], found_at(p0, ps, i), root, crate::restreamer::ffmpeg::ports_after(
            l0,
            crate::restreamer::ffmpeg::ports_before(ps, i as nat),
        )));
        let port1 = crate::restreamer::ffmpeg::ports_after(l0, crate::restreamer::ffmpeg::ports_before(ps, i as nat));
        let port2 = crate::restreamer::ffmpeg::ports_after(l1, crate::restreamer::ffmpeg::ports_before(ps, i as nat));
        let k1 = choose|k: RestreamerKind| #[trigger]
            demands(ps[i], k, root, crate::restreamer::ffmpeg::kind_of(entry_of(p0, id)), port1)
                && entry_made(e1, entry_of(p0, id), k);
        let k2 = choose|k: RestreamerKind| #[trigger]
            demands(ps[i], k, root, crate::restreamer::ffmpeg::kind_of(entry_of(p1, id)), port2)
                && entry_made(e2, entry_of(p1, id), k);
        lemma_made_alike(e1, entry_of(p0, id), k1);
        lemma_demands_alike(
            ps[i],
            k1,
            k2,
            root,
            crate::restreamer::ffmpeg::kind_of(entry_of(p0, id)),
            crate::restreamer::ffmpeg::kind_of(entry_of(p1, id)),
            port1,
            port2,
        );
        lemma_alike_trans(e1.kind, k1, k2);
        lemma_alike_settled(e1.kind, k2);
    }
}

} // verus!

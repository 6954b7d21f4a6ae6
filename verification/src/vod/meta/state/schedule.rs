//! Scheduling of [`Playlist`]s to be played by `nginx-vod-module`.
//!
//! Each day is filled with the clips of its weekday, looped without gaps
//! until the day is over; days run one after another in the playlist's
//! timezone. The schedule starts at the playlist's initial position (or at
//! the start of today) and holds the clips that have not finished a minute
//! ago, up to the limit of `nginx-vod-module` on their number.

use vstd::prelude::*;

use crate::api::allatra::video::{resolution_lines, Resolution};
use crate::api::nginx::vod_module::mapping::{
    is_supported_source, url_path_spec, Clip as MappingClip, ClipType, MediaSet,
    MillisDateTime, MillisDuration, PlaylistType, Sequence, SourceClip, MAX_DURATIONS_LEN,
};
use crate::text::{decimal, push_char, push_decimal};
use crate::vod::meta::state::{
    mutual_list, mutual_sizes, src_of, Clip, Playlist, PlaylistInitialPosition, Src,
    SECS_IN_DAY,
};
use crate::weburl::WebUrlView;

verus! {

/// Bound on the magnitude of any point in time, in seconds since the UNIX
/// epoch, that `chrono` can represent.
pub const TIME_BOUND: i64 = 0x800_0000_0000;

/// Reads the clock: calls `chrono::Utc::now` and takes its `timestamp`, the
/// whole seconds since the UNIX epoch. `chrono` documents `now` as
/// returning a `DateTime<Utc>`, whose years lie within ±262143, so the
/// result lies within `TIME_BOUND`; nothing else is said of it.
#[verifier::external_body]
fn utc_now_secs() -> (res: i64)
    ensures
        -TIME_BOUND < res < TIME_BOUND,
{
    chrono::Utc::now().timestamp()
}

/// One clip played in the schedule: the day it belongs to (in days since the
/// UNIX epoch in the playlist's timezone), its position among the clips of
/// that day's weekday, its starting time and its duration, in seconds.
pub struct Slot {
    /// Day of this slot.
    pub day: int,
    /// Position of the clip among those of the day's weekday.
    pub pos: int,
    /// Starting time, in seconds since the UNIX epoch.
    pub start: int,
    /// Duration, in seconds.
    pub dur: int,
}

/// Duration of a clip, in seconds.
pub open spec fn clip_secs(c: Clip) -> int {
    c.view.to - c.view.from
}

/// Slots of a day whose clips are `clips`, from time `t` on, the `k`-th clip
/// played next: the clips are looped, each starting right when the previous
/// one finishes, as long as they start before `end`.
pub open spec fn day_slots(clips: Seq<Clip>, day: int, t: int, end: int, k: int) -> Seq<Slot>
    decreases (if t < end {
        end - t
    } else {
        0
    }),
{
    if t >= end || clips.len() == 0 || k < 0 {
        Seq::empty()
    } else {
        let pos = k % (clips.len() as int);
        let d = clip_secs(clips[pos]);
        if d <= 0 {
            Seq::empty()
        } else {
            seq![Slot { day, pos, start: t, dur: d }] + day_slots(clips, day, t + d, end, k + 1)
        }
    }
}

/// Weekday, as days since Monday, of the given day since the UNIX epoch
/// (which was a Thursday).
pub open spec fn weekday_of(day: int) -> int {
    (day + 3) % 7
}

/// Starting time of the given day, in seconds since the UNIX epoch, in a
/// timezone `off` seconds east of UTC.
pub open spec fn day_start(day: int, off: int) -> int {
    day * 86400 - off
}

/// Day, since the UNIX epoch, that the given time falls on in a timezone
/// `off` seconds east of UTC.
pub open spec fn day_of(t: int, off: int) -> int {
    (t + off) / 86400
}

/// Slots of the given day of a playlist.
pub open spec fn slots_of_day(pl: Playlist, day: int) -> Seq<Slot> {
    let ds = day_start(day, pl.tz.offset());
    day_slots(pl.clips@[weekday_of(day)]@, day, ds, ds + 86400, 0)
}

/// Slots of `n` days of a playlist, starting from day `d0`.
pub open spec fn timeline(pl: Playlist, d0: int, n: nat) -> Seq<Slot>
    decreases n,
{
    if n == 0 {
        Seq::empty()
    } else {
        timeline(pl, d0, (n - 1) as nat) + slots_of_day(pl, d0 + n - 1)
    }
}

/// Whether the given slot is still worth serving at `now`: it finishes less
/// than a minute before `now`, or later.
pub open spec fn is_returned(s: Slot, now: int) -> bool {
    s.start + s.dur + 60 > now
}

/// The slots among the given ones that are still worth serving at `now`.
pub open spec fn returned_of(s: Seq<Slot>, now: int) -> Seq<Slot>
    decreases s.len(),
{
    if s.len() == 0 {
        Seq::empty()
    } else {
        let r = returned_of(s.drop_last(), now);
        if is_returned(s.last(), now) {
            r.push(s.last())
        } else {
            r
        }
    }
}

/// The slots among the given ones that start at `from` or later.
pub open spec fn counted_of(s: Seq<Slot>, from: int) -> Seq<Slot>
    decreases s.len(),
{
    if s.len() == 0 {
        Seq::empty()
    } else {
        let r = counted_of(s.drop_last(), from);
        if s.last().start >= from {
            r.push(s.last())
        } else {
            r
        }
    }
}

/// Number of whole segments of `seg` seconds in the given slots.
pub open spec fn segments_of(s: Seq<Slot>, seg: int) -> int
    decreases s.len(),
{
    if s.len() == 0 {
        0
    } else {
        segments_of(s.drop_last(), seg) + s.last().dur / seg
    }
}

/// Position of the schedule at the first of the given slots that is worth
/// serving at `now`: the clip and segment indices at it, counting from
/// `clip0` and `seg0` the slots that start at `from` or later, and its
/// starting time.
pub open spec fn first_position(
    s: Seq<Slot>,
    now: int,
    from: int,
    seg: int,
    clip0: int,
    seg0: int,
) -> Option<PlaylistInitialPosition>
    decreases s.len(),
{
    if s.len() == 0 {
        None
    } else {
        let p = first_position(s.drop_last(), now, from, seg, clip0, seg0);
        if p is Some {
            p
        } else if is_returned(s.last(), now) {
            let c = counted_of(s.drop_last(), from);
            Some(
                PlaylistInitialPosition {
                    clip_index: (clip0 + c.len()) as u64,
                    segment_index: (seg0 + segments_of(c, seg)) as u64,
                    at: s.last().start as i64,
                },
            )
        } else {
            None
        }
    }
}

/// Where the schedule of a playlist starts at `now`: the clip and segment
/// indices, and the time from which slots are counted.
pub open spec fn start_of(pl: Playlist, now: int) -> (int, int, int) {
    match pl.initial {
        Some(i) => (i.clip_index as int, i.segment_index as int, i.at as int),
        None => (0, 0, day_start(day_of(now, pl.tz.offset()), pl.tz.offset())),
    }
}

/// Number of days from the given weekday until one that has clips (at most
/// seven).
pub open spec fn gap_from(week: Seq<Vec<Clip>>, w: int, k: int) -> int
    decreases 7 - k,
{
    if k >= 7 {
        7
    } else if week[(w + k) % 7]@.len() > 0 {
        k
    } else {
        gap_from(week, w, k + 1)
    }
}

/// How far the given day is from producing slots worth serving: the days
/// until `now`, plus eight, for days that started by `now`; the days until
/// one that has clips, for later ones.
pub open spec fn distance(pl: Playlist, day: int, now: int) -> int {
    let ds = day_start(day, pl.tz.offset());
    if ds <= now {
        (now - ds) / 86400 + 8
    } else {
        gap_from(pl.clips@, weekday_of(day), 0)
    }
}

/// Number of days of the timeline that always covers the whole schedule.
pub open spec fn horizon(pl: Playlist, now: int) -> nat {
    let from = start_of(pl, now).2;
    (distance(pl, day_of(from, pl.tz.offset()), now) + 8 * 128 + 1) as nat
}

/// The slots of a playlist worth serving at `now`, from the day that its
/// schedule starts on, over the days that cover the whole schedule.
pub open spec fn schedule_candidates(pl: Playlist, now: int) -> Seq<Slot> {
    let from = start_of(pl, now).2;
    let d0 = day_of(from, pl.tz.offset());
    returned_of(timeline(pl, d0, horizon(pl, now)), now)
}

/// The slots that the schedule of a playlist holds at `now`.
pub open spec fn schedule_slots(pl: Playlist, now: int) -> Seq<Slot> {
    schedule_candidates(pl, now).take(128)
}

/// Position of the first slot of the schedule of a playlist at `now`.
pub open spec fn schedule_position(pl: Playlist, now: int) -> Option<PlaylistInitialPosition> {
    let (clip0, seg0, from) = start_of(pl, now);
    let d0 = day_of(from, pl.tz.offset());
    first_position(
        timeline(pl, d0, horizon(pl, now)),
        now,
        from,
        pl.segment_duration.secs() as int,
        clip0,
        seg0,
    )
}

/// The clip played in the given slot of a playlist.
pub open spec fn clip_at(pl: Playlist, s: Slot) -> Clip {
    pl.clips@[weekday_of(s.day)]@[s.pos]
}

/// URL that a source file is read from: its local copy, if any.
pub open spec fn used_url(src: Src) -> WebUrlView {
    match src.url.local {
        Some(l) => l@,
        None => src.url.upstream@,
    }
}

/// Whether the given media clip plays the source file of the given
/// resolution of the given clip, within the clip's time window.
pub open spec fn media_clip_of(mc: MappingClip, c: Clip, r: Resolution) -> bool {
    let src = src_of(c.sources@, r)->Some_0;
    match mc.clip_type {
        ClipType::Source(sc) => {
            &&& sc.path@ == url_path_spec(used_url(src))
            &&& sc.from == Some(MillisDuration((c.view.from * 1000) as u128))
            &&& sc.to == Some(MillisDuration((c.view.to * 1000) as u128))
        },
    }
}

/// Name of the sequence of the given resolution: its number of lines and a
/// `p`.
pub open spec fn sequence_name(r: Resolution) -> Seq<char> {
    decimal(resolution_lines(r) as nat).push('p')
}

/// Whether the clips of a playlist can be played: it is well-formed, and
/// every source file that may be served is one `nginx-vod-module` can play.
pub open spec fn playable(pl: Playlist) -> bool {
    &&& pl.wf()
    &&& forall|d: int, j: int, r: Resolution|
        0 <= d < 7 && 0 <= j < pl.clips@[d]@.len() && mutual_sizes(pl.clips@, r) ==> is_supported_source(
            used_url(#[trigger] src_of(pl.clips@[d]@[j].sources@, r)->Some_0),
        )
}

/// Whether a playlist can be scheduled: it is well-formed, every source
/// file that may be served is one `nginx-vod-module` can play, and, where
/// there is anything to schedule (a resolution that all clips have), its
/// initial position is a representable time with indices that leave room to
/// count on.
pub open spec fn schedulable(pl: Playlist) -> bool {
    &&& playable(pl)
    &&& mutual_list(pl.clips@).len() > 0 && pl.initial is Some ==> {
        let i = pl.initial->Some_0;
        &&& -TIME_BOUND < i.at < TIME_BOUND
        &&& i.clip_index <= 0x8000_0000_0000_0000u64
        &&& i.segment_index <= 0x8000_0000_0000_0000u64
    }
}

/// Whether scheduling a playlist at `now` leaves room to schedule it again:
/// `now` and the initial position lie nine days within the representable
/// times, and the initial indices leave room for what one schedule counts
/// (at most 2^45 clips and 2^59 segments).
pub open spec fn reschedulable(pl: Playlist, now: int) -> bool {
    &&& -TIME_BOUND + 86460 < now < TIME_BOUND - 9 * 86400
    &&& pl.initial is Some ==> {
        let i = pl.initial->Some_0;
        &&& i.at < TIME_BOUND - 9 * 86400
        &&& i.clip_index <= 0x8000_0000_0000_0000u64 - 0x2000_0000_0000u64
        &&& i.segment_index <= 0x8000_0000_0000_0000u64 - 0x800_0000_0000_0000u64
    }
}

/// Whether `set` is the schedule of playlist `pl` at `now`, and `new_pl` the
/// playlist updated to start from it next time.
pub open spec fn scheduled(pl: Playlist, now: int, set: MediaSet, new_pl: Playlist) -> bool {
    let sizes = mutual_list(pl.clips@);
    &&& set.id matches Some(id) && id@ == pl.slug.view()
    &&& set.playlist_type == PlaylistType::Live
    &&& set.discontinuity
    &&& set.segment_duration == Some(MillisDuration((pl.segment_duration.secs() * 1000) as u128))
    &&& if sizes.len() == 0 {
        &&& set.initial_clip_index is None
        &&& set.initial_segment_index is None
        &&& set.durations@.len() == 0
        &&& set.clip_times@.len() == 0
        &&& set.sequences@.len() == 0
        &&& new_pl == pl
    } else {
        let out = schedule_slots(pl, now);
        let first = schedule_position(pl, now)->Some_0;
        &&& out.len() == MAX_DURATIONS_LEN
        &&& schedule_candidates(pl, now).len() >= MAX_DURATIONS_LEN
        &&& schedule_position(pl, now) is Some
        &&& set.initial_clip_index == Some(first.clip_index)
        &&& set.initial_segment_index == Some(first.segment_index)
        &&& new_pl == (Playlist { initial: Some(first), ..pl })
        &&& first.at == out[0].start
        &&& forall|i: int| 0 <= i < out.len() ==> -8 * TIME_BOUND < (#[trigger] out[i]).start < 8 * TIME_BOUND
        &&& first.clip_index >= start_of(pl, now).0
        &&& first.segment_index >= start_of(pl, now).1
        &&& set.durations@.len() == out.len()
        &&& set.clip_times@.len() == out.len()
        &&& forall|i: int|
            0 <= i < out.len() ==> (#[trigger] set.durations@[i]) == MillisDuration(
                (out[i].dur * 1000) as u128,
            ) && set.clip_times@[i] == MillisDateTime((out[i].start * 1000) as i128)
        &&& set.sequences@.len() == sizes.len()
        &&& forall|k: int|
            0 <= k < sizes.len() ==> {
                let sq = #[trigger] set.sequences@[k];
                &&& sq.id matches Some(id) && id@ == sequence_name(sizes[k])
                &&& sq.label matches Some(l) && l@ == sequence_name(sizes[k])
                &&& sq.language matches Some(l) && l@ == pl.lang@
                &&& sq.clips@.len() == out.len()
                &&& forall|i: int|
                    0 <= i < out.len() ==> media_clip_of(
                        #[trigger] sq.clips@[i],
                        clip_at(pl, out[i]),
                        sizes[k],
                    )
            }
    }
}

/// The slots that the weekly schedule of a playlist holds at `now`: those
/// of the seven days from today on, in the playlist's timezone, but the
/// clips that finished by `now` (those not worth serving a minute later),
/// and at most 128 of them.
pub open spec fn week_slots(pl: Playlist, now: int) -> Seq<Slot> {
    let r = returned_of(timeline(pl, day_of(now, pl.tz.offset()), 7), now + 60);
    if r.len() <= 128 {
        r
    } else {
        r.take(128)
    }
}

/// Whether `set` plays the given slots of a playlist: their durations and
/// starting times, and one sequence for each resolution that all clips
/// have, lowest first, playing each slot's clip in it.
pub open spec fn set_plays(pl: Playlist, set: MediaSet, out: Seq<Slot>) -> bool {
    let sizes = mutual_list(pl.clips@);
    &&& set.durations@.len() == out.len()
    &&& set.clip_times@.len() == out.len()
    &&& forall|i: int|
        0 <= i < out.len() ==> (#[trigger] set.durations@[i]) == MillisDuration(
            (out[i].dur * 1000) as u128,
        ) && set.clip_times@[i] == MillisDateTime((out[i].start * 1000) as i128)
    &&& set.sequences@.len() == sizes.len()
    &&& forall|k: int|
        0 <= k < sizes.len() ==> {
            let sq = #[trigger] set.sequences@[k];
            &&& sq.id matches Some(id) && id@ == sequence_name(sizes[k])
            &&& sq.label matches Some(l) && l@ == sequence_name(sizes[k])
            &&& sq.language matches Some(l) && l@ == pl.lang@
            &&& sq.clips@.len() == out.len()
            &&& forall|i: int|
                0 <= i < out.len() ==> media_clip_of(#[trigger] sq.clips@[i], clip_at(pl, out[i]), sizes[k])
        }
}

/// Whether `set` is the weekly schedule of playlist `pl` at `now`: a live
/// playlist with discontinuities and the playlist's segment duration,
/// playing the slots of the week (none without resolutions that all clips
/// have), without initial indices.
pub open spec fn week_scheduled(pl: Playlist, now: int, set: MediaSet) -> bool {
    let sizes = mutual_list(pl.clips@);
    &&& set.id matches Some(id) && id@ == pl.slug.view()
    &&& set.playlist_type == PlaylistType::Live
    &&& set.discontinuity
    &&& set.segment_duration == Some(MillisDuration((pl.segment_duration.secs() * 1000) as u128))
    &&& set.initial_clip_index is None
    &&& set.initial_segment_index is None
    &&& if sizes.len() == 0 {
        &&& set.durations@.len() == 0
        &&& set.clip_times@.len() == 0
        &&& set.sequences@.len() == 0
    } else {
        set_plays(pl, set, week_slots(pl, now))
    }
}

/// Lemma: a day of slots each lasting at least a second has at most as
/// many slots as seconds.
proof fn lemma_day_slots_len(clips: Seq<Clip>, day: int, t: int, end: int, k: int)
    ensures
        day_slots(clips, day, t, end, k).len() <= (if t < end {
            end - t
        } else {
            0
        }),
    decreases (if t < end {
        end - t
    } else {
        0
    }),
{
    if !(t >= end || clips.len() == 0 || k < 0) {
        let pos = k % (clips.len() as int);
        let d = clip_secs(clips[pos]);
        if d > 0 {
            lemma_day_slots_len(clips, day, t + d, end, k + 1);
        }
    }
}

/// Source of the given resolution among the given ones.
fn find_src(sources: &Vec<Src>, r: Resolution) -> (res: Option<&Src>)
    ensures
        match res {
            Some(s) => src_of(sources@, r) == Some(*s),
            None => src_of(sources@, r) is None,
        },
{
    let mut i: usize = 0;
    assert(sources@.skip(0) =~= sources@);
    while i < sources.len()
        invariant
            i <= sources.len(),
            src_of(sources@, r) == src_of(sources@.skip(i as int), r),
        decreases sources.len() - i,
    {
        assert(sources@.skip(i as int)[0] == sources@[i as int]);
        if sources[i].size == r {
            return Some(&sources[i]);
        }
        assert(sources@.skip(i as int).drop_first() =~= sources@.skip(i + 1));
        i = i + 1;
    }
    None
}

/// A clip that has a source of a resolution has it looked up.
proof fn lemma_src_of_has(sources: Seq<Src>, r: Resolution, i: int)
    requires
        0 <= i < sources.len(),
        sources[i].size == r,
    ensures
        src_of(sources, r) is Some,
    decreases sources.len(),
{
    if sources[0].size != r {
        assert(sources.drop_first()[i - 1] == sources[i]);
        lemma_src_of_has(sources.drop_first(), r, i - 1);
    }
}

/// Name of the sequence of the given resolution.
fn sequence_name_exec(r: Resolution) -> (res: String)
    ensures
        res@ == sequence_name(r),
{
    let mut res = String::new();
    push_decimal(&mut res, r.as_u16() as u64);
    push_char(&mut res, 'p');
    assert(res@ =~= sequence_name(r));
    res
}

/// Day, since the UNIX epoch, that time `t` falls on in a timezone `off`
/// seconds east of UTC.
fn day_of_exec(t: i64, off: i64) -> (res: i64)
    requires
        -2 * TIME_BOUND < t < 2 * TIME_BOUND,
        -86400 < off < 86400,
    ensures
        res == day_of(t as int, off as int),
        -(2 * TIME_BOUND) / 86400 - 2 <= res <= (2 * TIME_BOUND) / 86400 + 2,
{
    let x: i64 = t + off;
    let shifted: u64 = (x + 86400 * 0x4000_0000) as u64;
    let q: u64 = shifted / 86400;
    proof {
        let xi = x as int;
        assert(((xi + 86400 * 0x4000_0000) / 86400) == xi / 86400 + 0x4000_0000) by (nonlinear_arith);
    }
    (q as i64) - 0x4000_0000
}

/// Weekday, as days since Monday, of the given day since the UNIX epoch.
fn weekday_exec(day: i64) -> (res: usize)
    requires
        -0x10_0000_0000 < day < 0x10_0000_0000,
    ensures
        res == weekday_of(day as int),
        res < 7,
{
    let shifted: u64 = (day + 3 + 7 * 0x10_0000_0000) as u64;
    proof {
        let di = day as int;
        assert((di + 3 + 7 * 0x10_0000_0000) % 7 == (di + 3) % 7) by (nonlinear_arith);
    }
    (shifted % 7) as usize
}

/// Progress of building a schedule.
struct Progress {
    clip_times: Vec<MillisDateTime>,
    durations: Vec<MillisDuration>,
    seq_clips: Vec<Vec<MappingClip>>,
    clip_index: u64,
    segment_index: u64,
    first: Option<PlaylistInitialPosition>,
}

/// Parameters of building a schedule.
struct Params {
    pl: Playlist,
    now: int,
    from: int,
    seg: int,
    clip0: int,
    seg0: int,
    sizes: Seq<Resolution>,
}

/// Whether the progress reflects the given processed slots, counting aside.
spec fn progress_out_ok(c: Params, processed: Seq<Slot>, p: Progress) -> bool {
    let r = returned_of(processed, c.now);
    &&& p.durations@.len() == r.len()
    &&& p.clip_times@.len() == r.len()
    &&& forall|i: int|
        0 <= i < r.len() ==> (#[trigger] p.durations@[i]) == MillisDuration((r[i].dur * 1000) as u128)
            && p.clip_times@[i] == MillisDateTime((r[i].start * 1000) as i128)
    &&& p.seq_clips@.len() == c.sizes.len()
    &&& forall|k: int| 0 <= k < c.sizes.len() ==> (#[trigger] p.seq_clips@[k])@.len() == r.len()
    &&& forall|k: int, i: int|
        0 <= k < c.sizes.len() && 0 <= i < r.len() ==> media_clip_of(
            #[trigger] p.seq_clips@[k]@[i],
            clip_at(c.pl, r[i]),
            c.sizes[k],
        )
    &&& p.first == first_position(processed, c.now, c.from, c.seg, c.clip0, c.seg0)
    &&& forall|i: int|
        0 <= i < r.len() ==> -8 * TIME_BOUND < (#[trigger] r[i]).start < 8 * TIME_BOUND && 0 < r[i].dur
            <= 86400 && is_returned(r[i], c.now)
    &&& (p.first is None <==> r.len() == 0)
    &&& p.first matches Some(f) ==> {
        &&& f.at == r[0].start
        &&& f.clip_index >= c.clip0
        &&& f.segment_index >= c.seg0
        &&& f.clip_index <= p.clip_index
        &&& f.segment_index <= p.segment_index
    }
}

/// Whether the progress reflects the given processed slots.
spec fn progress_ok(c: Params, processed: Seq<Slot>, p: Progress) -> bool {
    let counted = counted_of(processed, c.from);
    &&& progress_out_ok(c, processed, p)
    &&& p.clip_index == c.clip0 + counted.len()
    &&& p.segment_index == c.seg0 + segments_of(counted, c.seg)
    &&& p.clip_index >= c.clip0
    &&& p.segment_index >= c.seg0
}

/// Whether the parameters describe the schedule of a playlist.
spec fn params_ok(c: Params) -> bool {
    &&& playable(c.pl)
    &&& c.sizes == mutual_list(c.pl.clips@)
    &&& c.sizes.len() > 0
    &&& c.seg == c.pl.segment_duration.secs()
    &&& 5 <= c.seg <= 30
}

/// Whether the slot is one of a clip of the playlist.
spec fn slot_of(pl: Playlist, s: Slot) -> bool {
    &&& 0 <= weekday_of(s.day) < 7
    &&& 0 <= s.pos < pl.clips@[weekday_of(s.day)]@.len()
    &&& s.dur == clip_secs(clip_at(pl, s))
}

/// Once some slot is worth serving, the first position is known.
proof fn lemma_first_position_some(s: Seq<Slot>, now: int, from: int, seg: int, clip0: int, seg0: int)
    requires
        returned_of(s, now).len() > 0,
    ensures
        first_position(s, now, from, seg, clip0, seg0) is Some,
    decreases s.len(),
{
    if s.len() > 0 {
        if returned_of(s.drop_last(), now).len() > 0 {
            lemma_first_position_some(s.drop_last(), now, from, seg, clip0, seg0);
        }
    }
}

/// Every clip of a playlist with mutual resolutions has a source of each.
proof fn lemma_clip_has_src(pl: Playlist, d: int, j: int, r: Resolution)
    requires
        0 <= d < pl.clips@.len(),
        0 <= j < pl.clips@[d]@.len(),
        mutual_sizes(pl.clips@, r),
    ensures
        src_of(pl.clips@[d]@[j].sources@, r) is Some,
{
    let c = pl.clips@[d]@[j];
    assert(crate::vod::meta::state::has_size(c, r));
    let i = choose|i: int| 0 <= i < c.sources@.len() && (#[trigger] c.sources@[i]).size == r;
    lemma_src_of_has(c.sources@, r, i);
}

/// Members of the mutual list are mutual resolutions.
proof fn lemma_mutual_list_member(week: Seq<Vec<Clip>>, k: int, i: int)
    requires
        0 <= i < crate::vod::meta::state::mutual_list_upto(week, k).len(),
    ensures
        mutual_sizes(week, crate::vod::meta::state::mutual_list_upto(week, k)[i]),
    decreases k,
{
    if k > 0 {
        let prev = crate::vod::meta::state::mutual_list_upto(week, k - 1);
        if i < prev.len() {
            lemma_mutual_list_member(week, k - 1, i);
        }
    }
}

/// Takes the given slot into account: records it when it is worth serving,
/// and counts it when it starts at the counting time or later. Tells whether
/// the schedule is full, in which case the slot is not counted.
fn process_slot(
    pl: &Playlist,
    sizes: &Vec<Resolution>,
    now: i64,
    from: i64,
    seg: u64,
    p: &mut Progress,
    clip: &Clip,
    time: i64,
    Ghost(c): Ghost<Params>,
    Ghost(processed): Ghost<Seq<Slot>>,
    Ghost(slot): Ghost<Slot>,
) -> (full: bool)
    requires
        params_ok(c),
        c.pl == *pl,
        c.now == now,
        c.from == from,
        c.seg == seg,
        c.sizes == sizes@,
        progress_ok(c, processed, *old(p)),
        returned_of(processed, now as int).len() < 128,
        slot_of(*pl, slot),
        slot.start == time,
        *clip == clip_at(*pl, slot),
        -8 * TIME_BOUND < time < 8 * TIME_BOUND,
        old(p).clip_index + 1 <= u64::MAX,
        old(p).segment_index + 17280 <= u64::MAX,
    ensures
        full == (returned_of(processed.push(slot), now as int).len() >= 128),
        full ==> returned_of(processed.push(slot), now as int).len() == 128,
        full ==> progress_out_ok(c, processed.push(slot), *final(p)),
        !full ==> progress_ok(c, processed.push(slot), *final(p)),
        final(p).clip_index <= old(p).clip_index + 1,
        final(p).segment_index <= old(p).segment_index + 17280,
        old(p).first is Some ==> final(p).first == old(p).first,
        old(p).first is None && final(p).first is Some ==> final(p).first->Some_0.at == time,
{
    let ghost next_processed = processed.push(slot);
    assert(next_processed.drop_last() =~= processed);
    assert(next_processed.last() == slot);
    let dur: u64 = clip.view.to - clip.view.from;
    let next_time: i64 = time + dur as i64;
    let returned = next_time + 60 > now;
    let ghost r = returned_of(processed, now as int);
    assert(p.durations@.len() == r.len());
    assert(dur <= 86400) by {
        assert(pl.wf());
    }
    assert(returned == is_returned(slot, now as int));
    assert(p.clip_index >= c.clip0 && p.segment_index >= c.seg0);
    if returned {
        let ghost old_seq = p.seq_clips@;
        let ghost p0 = *p;
        let mut k: usize = 0;
        while k < sizes.len()
            invariant
                params_ok(c),
                c.pl == *pl,
                c.sizes == sizes@,
                slot_of(*pl, slot),
                *clip == clip_at(*pl, slot),
                k <= sizes.len(),
                p.durations == p0.durations,
                p.clip_times == p0.clip_times,
                p.clip_index == p0.clip_index,
                p.segment_index == p0.segment_index,
                p.first == p0.first,
                p.seq_clips@.len() == sizes@.len(),
                old_seq.len() == sizes@.len(),
                forall|m: int| 0 <= m < sizes@.len() ==> (#[trigger] old_seq[m])@.len() == r.len(),
                forall|m: int| k <= m < sizes@.len() ==> #[trigger] p.seq_clips@[m] == old_seq[m],
                forall|m: int|
                    0 <= m < k ==> (#[trigger] p.seq_clips@[m])@ == old_seq[m]@.push(
                        p.seq_clips@[m]@.last(),
                    ) && media_clip_of(p.seq_clips@[m]@.last(), *clip, sizes@[m]),
            decreases sizes.len() - k,
        {
            let r_k = sizes[k];
            proof {
                lemma_mutual_list_member(pl.clips@, 5, k as int);
                lemma_clip_has_src(*pl, weekday_of(slot.day), slot.pos, r_k);
            }
            let src = find_src(&clip.sources, r_k).unwrap();
            let url = match &src.url.local {
                Some(l) => l,
                None => &src.url.upstream,
            };
            proof {
                assert(is_supported_source(
                    used_url(src_of(pl.clips@[weekday_of(slot.day)]@[slot.pos].sources@, r_k)->Some_0),
                ));
            }
            let path = SourceClip::get_url_path(url);
            let mc = MappingClip {
                clip_type: ClipType::Source(
                    SourceClip {
                        path,
                        from: Some(MillisDuration(clip.view.from as u128 * 1000)),
                        to: Some(MillisDuration(clip.view.to as u128 * 1000)),
                    },
                ),
            };
            let ghost gmc = mc;
            p.seq_clips[k].push(mc);
            assert(p.seq_clips@[k as int]@.last() == gmc);
            k = k + 1;
        }
        p.clip_times.push(MillisDateTime(time as i128 * 1000));
        p.durations.push(MillisDuration(dur as u128 * 1000));
        assert(p.durations@.len() == r.len() + 1);
        proof {
            assert(returned_of(next_processed, now as int) == r.push(slot));
            assert forall|i: int| 0 <= i < r.len() + 1 implies (#[trigger] p.durations@[i])
                == MillisDuration((r.push(slot)[i].dur * 1000) as u128) && p.clip_times@[i]
                == MillisDateTime((r.push(slot)[i].start * 1000) as i128) by {
                if i < r.len() {
                    assert(p.durations@[i] == p0.durations@[i]);
                    assert(p.clip_times@[i] == p0.clip_times@[i]);
                } else {
                    assert(r.push(slot)[i] == slot);
                }
            }
            assert forall|m: int, i: int|
                0 <= m < c.sizes.len() && 0 <= i < r.len() + 1 implies media_clip_of(
                #[trigger] p.seq_clips@[m]@[i],
                clip_at(c.pl, r.push(slot)[i]),
                c.sizes[m],
            ) by {
                if i < r.len() {
                    assert(p.seq_clips@[m]@[i] == old_seq[m]@[i]);
                } else {
                    assert(r.push(slot)[i] == slot);
                }
            }
            assert forall|i: int| 0 <= i < r.len() + 1 implies -8 * TIME_BOUND < (#[trigger] r.push(
                slot,
            )[i]).start < 8 * TIME_BOUND && 0 < r.push(slot)[i].dur <= 86400 && is_returned(
                r.push(slot)[i],
                now as int,
            ) by {
                if i < r.len() {
                    assert(r.push(slot)[i] == r[i]);
                } else {
                    assert(r.push(slot)[i] == slot);
                }
            }
        }
        if p.durations.len() >= MAX_DURATIONS_LEN {
            proof {
                assert(r.len() >= 1);
                lemma_first_position_some(processed, now as int, from as int, seg as int, c.clip0, c.seg0);
                assert(p.first is Some);
                assert(r.push(slot)[0] == r[0]);
                assert(p.first == first_position(next_processed, now as int, from as int, seg as int, c.clip0, c.seg0));
                assert(progress_out_ok(c, next_processed, *p));
            }
            return true;
        }
        if p.first.is_none() {
            p.first = Some(
                PlaylistInitialPosition {
                    clip_index: p.clip_index,
                    segment_index: p.segment_index,
                    at: time,
                },
            );
        }
    }
    if time >= from {
        assert(dur / seg <= 17280) by (nonlinear_arith)
            requires
                dur <= 86400,
                seg >= 5,
        ;
        p.clip_index = p.clip_index + 1;
        p.segment_index = p.segment_index + dur / seg;
    }
    proof {
        assert(counted_of(next_processed, from as int) == (if slot.start >= from {
            counted_of(processed, from as int).push(slot)
        } else {
            counted_of(processed, from as int)
        }));
        if slot.start >= from {
            assert(counted_of(processed, from as int).push(slot).drop_last() =~= counted_of(
                processed,
                from as int,
            ));
        }
        assert(p.first == first_position(next_processed, now as int, from as int, seg as int, c.clip0, c.seg0));
        assert(p.clip_index == c.clip0 + counted_of(next_processed, from as int).len());
        assert(p.segment_index == c.seg0 + segments_of(counted_of(next_processed, from as int), seg as int));
        if !returned {
            assert(returned_of(next_processed, now as int) == r);
        } else {
            assert(returned_of(next_processed, now as int) == r.push(slot));
            if r.len() > 0 {
                assert(r.push(slot)[0] == r[0]);
            } else {
                assert(r.push(slot)[0] == slot);
            }
        }
        assert(progress_out_ok(c, next_processed, *p));
    }
    false
}

/// Bound on the magnitude of the days that a schedule goes through.
pub const DAY_BOUND: i64 = 0x2000_0000;

/// The next position in a loop over `n` clips.
proof fn lemma_next_pos(k: int, n: int)
    requires
        k >= 0,
        n > 0,
    ensures
        (k + 1) % n == ((k % n) + 1) % n,
{
    assert((k + 1) % n == ((k % n) + 1) % n) by (nonlinear_arith)
        requires
            k >= 0,
            n > 0,
    ;
}

/// Takes the slots of the given day into account, until the schedule is
/// full. Tells whether it is, and which slots of the day were taken.
fn schedule_day(
    pl: &Playlist,
    sizes: &Vec<Resolution>,
    now: i64,
    from: i64,
    seg: u64,
    off: i64,
    day: i64,
    p: &mut Progress,
    Ghost(c): Ghost<Params>,
    Ghost(processed): Ghost<Seq<Slot>>,
) -> (res: (bool, Ghost<Seq<Slot>>))
    requires
        params_ok(c),
        c.pl == *pl,
        c.now == now,
        c.from == from,
        c.seg == seg,
        c.sizes == sizes@,
        off == pl.tz.offset(),
        -86400 < off < 86400,
        -DAY_BOUND < day < DAY_BOUND,
        progress_ok(c, processed, *old(p)),
        returned_of(processed, now as int).len() < 128,
        old(p).clip_index + 86400 <= u64::MAX,
        old(p).segment_index + 86400 * 17280 <= u64::MAX,
    ensures
        ({
            let (full, done) = (res.0, res.1@);
            let all = slots_of_day(*pl, day as int);
            &&& done.len() <= all.len()
            &&& done == all.take(done.len() as int)
            &&& !full ==> done == all && progress_ok(c, processed + done, *final(p))
                && returned_of(processed + done, now as int).len() < 128
            &&& full ==> progress_out_ok(c, processed + done, *final(p)) && returned_of(
                processed + done,
                now as int,
            ).len() == 128
        }),
        final(p).clip_index <= old(p).clip_index + 86400,
        final(p).segment_index <= old(p).segment_index + 86400 * 17280,
        old(p).first is Some ==> final(p).first == old(p).first,
        old(p).first is None && final(p).first is Some ==> final(p).first->Some_0.at < day * 86400
            - off + 86400,
{
    let ds: i64 = day * 86400 - off;
    let next: i64 = ds + 86400;
    let w = weekday_exec(day);
    let clips = &pl.clips[w];
    let ghost all = slots_of_day(*pl, day as int);
    let ghost cs = clips@;
    assert(cs == pl.clips@[weekday_of(day as int)]@);
    let ghost mut done: Seq<Slot> = Seq::empty();
    if clips.len() == 0 {
        assert(all =~= Seq::<Slot>::empty());
        assert(processed + done =~= processed);
        return (false, Ghost(done));
    }
    let n = clips.len();
    let mut time: i64 = ds;
    let mut pos: usize = 0;
    let ghost mut k: int = 0;
    let ghost entry_ci = p.clip_index;
    let ghost entry_si = p.segment_index;
    let ghost entry_first = p.first;
    assert(processed + done =~= processed);
    while time < next
        invariant
            params_ok(c),
            c.pl == *pl,
            c.now == now,
            c.from == from,
            c.seg == seg,
            c.sizes == sizes@,
            -DAY_BOUND < day < DAY_BOUND,
            ds == day * 86400 - off,
            -86400 < off < 86400,
            next == ds + 86400,
            cs == clips@,
            cs == pl.clips@[weekday_of(day as int)]@,
            0 <= weekday_of(day as int) < 7,
            n == cs.len(),
            n > 0,
            k >= 0,
            pos == k % (n as int),
            ds <= time < next + 86400,
            all == slots_of_day(*pl, day as int),
            all == done + day_slots(cs, day as int, time as int, next as int, k),
            done.len() <= time - ds,
            done.len() <= 86400,
            progress_ok(c, processed + done, *p),
            returned_of(processed + done, now as int).len() < 128,
            entry_ci + 86400 <= u64::MAX,
            entry_si + 86400 * 17280 <= u64::MAX,
            entry_ci == old(p).clip_index,
            entry_si == old(p).segment_index,
            p.clip_index <= entry_ci + done.len(),
            p.segment_index <= entry_si + 17280 * done.len(),
            entry_first == old(p).first,
            entry_first is Some ==> p.first == entry_first,
            entry_first is None && p.first is Some ==> p.first->Some_0.at < next,
        decreases (if time < next {
            next - time
        } else {
            0
        }),
    {
        let clip = &clips[pos];
        let dur: u64 = clip.view.to - clip.view.from;
        let ghost slot = Slot { day: day as int, pos: pos as int, start: time as int, dur: dur as int };
        proof {
            assert(pl.wf());
            assert(clip_secs(cs[pos as int]) == dur);
            assert(day_slots(cs, day as int, time as int, next as int, k) == seq![slot]
                + day_slots(cs, day as int, time as int + dur, next as int, k + 1));
            assert(all == done.push(slot) + day_slots(
                cs,
                day as int,
                time as int + dur,
                next as int,
                k + 1,
            ));
            assert((processed + done).push(slot) =~= processed + done.push(slot));
            assert(done.len() < 86400);
        }
        let full = process_slot(
            pl,
            sizes,
            now,
            from,
            seg,
            p,
            clip,
            time,
            Ghost(c),
            Ghost(processed + done),
            Ghost(slot),
        );
        proof {
            done = done.push(slot);
            lemma_day_slots_len(cs, day as int, time as int + dur, next as int, k + 1);
            assert(done =~= all.take(done.len() as int));
        }
        if full {
            return (true, Ghost(done));
        }
        time = time + dur as i64;
        proof {
            lemma_next_pos(k, n as int);
            k = k + 1;
        }
        pos = (pos + 1) % n;
    }
    proof {
        assert(day_slots(cs, day as int, time as int, next as int, k) =~= Seq::<Slot>::empty());
        assert(all =~= done);
    }
    (false, Ghost(done))
}

/// Slots worth serving of two runs of slots are those of each.
proof fn lemma_returned_append(a: Seq<Slot>, b: Seq<Slot>, now: int)
    ensures
        returned_of(a + b, now) == returned_of(a, now) + returned_of(b, now),
    decreases b.len(),
{
    if b.len() == 0 {
        assert(a + b =~= a);
        assert(returned_of(a, now) + returned_of(b, now) =~= returned_of(a, now));
    } else {
        lemma_returned_append(a, b.drop_last(), now);
        assert((a + b).drop_last() =~= a + b.drop_last());
        assert((a + b).last() == b.last());
        if is_returned(b.last(), now) {
            assert(returned_of(a, now) + returned_of(b.drop_last(), now).push(b.last())
                =~= (returned_of(a, now) + returned_of(b.drop_last(), now)).push(b.last()));
        }
    }
}

/// Once known, the first position stays as more slots follow.
proof fn lemma_first_position_append(
    a: Seq<Slot>,
    b: Seq<Slot>,
    now: int,
    from: int,
    seg: int,
    clip0: int,
    seg0: int,
)
    requires
        first_position(a, now, from, seg, clip0, seg0) is Some,
    ensures
        first_position(a + b, now, from, seg, clip0, seg0) == first_position(
            a,
            now,
            from,
            seg,
            clip0,
            seg0,
        ),
    decreases b.len(),
{
    if b.len() == 0 {
        assert(a + b =~= a);
    } else {
        lemma_first_position_append(a, b.drop_last(), now, from, seg, clip0, seg0);
        assert((a + b).drop_last() =~= a + b.drop_last());
    }
}

/// A timeline splits into its first days and the days after them.
proof fn lemma_timeline_split(pl: Playlist, d0: int, m: nat, n: nat)
    ensures
        timeline(pl, d0, m + n) == timeline(pl, d0, m) + timeline(pl, d0 + m, n),
    decreases n,
{
    if n == 0 {
        assert(timeline(pl, d0, m) + timeline(pl, d0 + m, 0) =~= timeline(pl, d0, m));
    } else {
        lemma_timeline_split(pl, d0, m, (n - 1) as nat);
        assert(timeline(pl, d0, m + n) == timeline(pl, d0, (m + n - 1) as nat) + slots_of_day(
            pl,
            d0 + m + n - 1,
        ));
        assert(timeline(pl, d0 + m, n) == timeline(pl, d0 + m, (n - 1) as nat) + slots_of_day(
            pl,
            d0 + m + n - 1,
        ));
        assert(timeline(pl, d0, m) + timeline(pl, d0 + m, (n - 1) as nat) + slots_of_day(
            pl,
            d0 + m + n - 1,
        ) =~= timeline(pl, d0, m) + (timeline(pl, d0 + m, (n - 1) as nat) + slots_of_day(
            pl,
            d0 + m + n - 1,
        )));
    }
}

/// The gap to a day with clips is at most the position of any such day.
proof fn lemma_gap_bound(week: Seq<Vec<Clip>>, w: int, k: int, j: int)
    requires
        0 <= k <= j < 7,
        week[(w + j) % 7]@.len() > 0,
    ensures
        k <= gap_from(week, w, k) <= j,
    decreases 7 - k,
{
    if week[(w + k) % 7]@.len() == 0 {
        assert(k != j);
        lemma_gap_bound(week, w, k + 1, j);
    }
}

/// The gap to a day with clips is at most seven days.
proof fn lemma_gap_le7(week: Seq<Vec<Clip>>, w: int, k: int)
    requires
        0 <= k <= 7,
    ensures
        gap_from(week, w, k) <= 7,
    decreases 7 - k,
{
    if k < 7 && week[(w + k) % 7]@.len() == 0 {
        lemma_gap_le7(week, w, k + 1);
    }
}

/// A day that a schedule reaches before any slot worth serving ends no
/// later than nine days after both `now` and the time the schedule counts
/// from.
proof fn lemma_first_day_bound(pl: Playlist, d0: int, i: int, now: int, from: int, off: int)
    requires
        0 <= i <= distance(pl, d0, now),
        d0 == day_of(from, off),
        off == pl.tz.offset(),
    ensures
        (d0 + i) * 86400 - off + 86400 <= (if now >= from {
            now
        } else {
            from
        }) + 9 * 86400,
{
    let ds0 = day_start(d0, off);
    assert(d0 * 86400 <= from + off) by (nonlinear_arith)
        requires
            d0 == (from + off) / 86400,
    ;
    if ds0 <= now {
        let q = (now - ds0) / 86400;
        assert(q * 86400 <= now - ds0) by (nonlinear_arith)
            requires
                q == (now - ds0) / 86400,
                now - ds0 >= 0,
        ;
        assert(i <= q + 8);
        assert((d0 + i) * 86400 <= d0 * 86400 + (q + 8) * 86400) by (nonlinear_arith)
            requires
                i <= q + 8,
        ;
    } else {
        lemma_gap_le7(pl.clips@, weekday_of(d0), 0);
        assert(i <= 7);
        assert((d0 + i) * 86400 <= d0 * 86400 + 7 * 86400) by (nonlinear_arith)
            requires
                i <= 7,
        ;
    }
}

/// Moving one day ahead shortens the gap to a day with clips by one.
proof fn lemma_gap_step(week: Seq<Vec<Clip>>, w: int, k: int, j: int)
    requires
        0 <= w < 7,
        1 <= k <= j < 7,
        week[(w + j) % 7]@.len() > 0,
    ensures
        gap_from(week, (w + 1) % 7, k - 1) == gap_from(week, w, k) - 1,
    decreases 7 - k,
{
    assert(((w + 1) % 7 + (k - 1)) % 7 == (w + k) % 7);
    if week[(w + k) % 7]@.len() == 0 {
        assert(k != j);
        lemma_gap_step(week, w, k + 1, j);
    }
}

/// The next day's weekday follows the day's one.
proof fn lemma_weekday_next(day: int)
    ensures
        weekday_of(day + 1) == (weekday_of(day) + 1) % 7,
        0 <= weekday_of(day) < 7,
{
}

/// The distance to slots worth serving shrinks every day, and by more than
/// anything a day adds when that day has slots worth serving.
proof fn lemma_distance_step(pl: Playlist, day: int, now: int, before: nat, after: nat)
    requires
        pl.wf(),
        crate::vod::meta::state::has_clips(pl.clips@),
        before <= after,
        day_start(day, pl.tz.offset()) > now && pl.clips@[weekday_of(day)]@.len() > 0 ==> after
            >= before + 1,
    ensures
        0 <= distance(pl, day + 1, now),
        distance(pl, day + 1, now) + 8 * (128 - after) < distance(pl, day, now) + 8 * (128
            - before),
{
    let off = pl.tz.offset();
    let ds = day_start(day, off);
    let week = pl.clips@;
    let w = weekday_of(day);
    lemma_weekday_next(day);
    assert(day_start(day + 1, off) == ds + 86400);
    let d = choose|d: int| 0 <= d < week.len() && (#[trigger] week[d])@.len() > 0;
    let j = (d - w + 7) % 7;
    assert((w + j) % 7 == d);
    lemma_gap_bound(week, (w + 1) % 7, 0, (d - (w + 1) % 7 + 7) % 7);
    assert(((w + 1) % 7 + (d - (w + 1) % 7 + 7) % 7) % 7 == d);
    if ds <= now {
        if ds + 86400 <= now {
            assert((now - ds - 86400) / 86400 == (now - ds) / 86400 - 1);
        }
    } else {
        if week[w]@.len() > 0 {
            lemma_gap_bound(week, w, 0, 0);
        } else {
            assert(j != 0);
            lemma_gap_step(week, w, 1, j);
            lemma_gap_bound(week, w, 1, j);
        }
    }
}

/// The first slot of a day that starts after `now` is worth serving.
proof fn lemma_future_day_returned(pl: Playlist, day: int, now: int)
    requires
        pl.wf(),
        pl.clips@[weekday_of(day)]@.len() > 0,
        day_start(day, pl.tz.offset()) > now,
    ensures
        returned_of(slots_of_day(pl, day), now).len() >= 1,
{
    lemma_weekday_next(day);
    let cs = pl.clips@[weekday_of(day)]@;
    let ds = day_start(day, pl.tz.offset());
    let all = slots_of_day(pl, day);
    assert(0int % (cs.len() as int) == 0);
    assert(clip_secs(cs[0]) > 0);
    let rest = day_slots(cs, day, ds + clip_secs(cs[0]), ds + 86400, 1);
    let first = Slot { day, pos: 0, start: ds, dur: clip_secs(cs[0]) };
    assert(all == seq![first] + rest);
    lemma_returned_append(seq![first], rest, now);
    assert(seq![first].drop_last() =~= Seq::<Slot>::empty());
    assert(returned_of(Seq::<Slot>::empty(), now) =~= Seq::<Slot>::empty());
    assert(seq![first].last() == first);
    assert(is_returned(first, now));
    assert(returned_of(seq![first], now) =~= Seq::<Slot>::empty().push(first));
}

/// Bound on the number of days that a schedule goes through.
pub const PHI_BOUND: u64 = 0x1000_0000;

impl Playlist {
    /// Schedules this playlist to be played by `nginx-vod-module`, as of the
    /// current time; see [`Playlist::schedule_at`].
    pub fn schedule_nginx_vod_module_set(&mut self) -> (set: MediaSet)
        requires
            schedulable(*old(self)),
        ensures
            exists|now: int|
                -TIME_BOUND < now < TIME_BOUND && scheduled(*old(self), now, set, *final(self)),
    {
        let now = utc_now_secs();
        self.schedule_at(now)
    }

    /// Schedules this playlist to be played by `nginx-vod-module` as of
    /// `now` (in seconds since the UNIX epoch).
    ///
    /// Days are filled, in the playlist's timezone, with the clips of their
    /// weekday looped without gaps; clips that finished more than a minute
    /// before `now` are left out, and the schedule holds the next 128 clips.
    /// It starts at the playlist's initial position, or at the start of
    /// today, and this position is updated to the first clip of the schedule
    /// so that clip and segment indices keep growing in step with time.
    ///
    /// Only the resolutions that all clips have are scheduled, one sequence
    /// for each, lowest first; without any, the schedule is empty.
    #[verifier::spinoff_prover]
    #[verifier::rlimit(40)]
    pub fn schedule_at(&mut self, now: i64) -> (set: MediaSet)
        requires
            schedulable(*old(self)),
            -TIME_BOUND < now < TIME_BOUND,
        ensures
            scheduled(*old(self), now as int, set, *final(self)),
            reschedulable(*old(self), now as int) ==> schedulable(*final(self)),
    {
        let mut set = MediaSet::new();
        set.id = Some(self.slug.as_str().to_owned());
        set.playlist_type = PlaylistType::Live;
        set.discontinuity = true;
        let seg = self.segment_duration.as_duration();
        set.segment_duration = Some(MillisDuration(seg as u128 * 1000));
        let sizes = self.mutual_src_sizes();
        if sizes.len() == 0 {
            return set;
        }
        let off = self.tz.local_minus_utc() as i64;
        let (clip0, seg0, from): (u64, u64, i64) = match self.initial {
            Some(i) => (i.clip_index, i.segment_index, i.at),
            None => (0, 0, day_of_exec(now, off) * 86400 - off),
        };
        let d0 = day_of_exec(from, off);
        let mut seq_clips: Vec<Vec<MappingClip>> = Vec::new();
        let mut k: usize = 0;
        while k < sizes.len()
            invariant
                k <= sizes.len(),
                seq_clips@.len() == k,
                forall|m: int| 0 <= m < k ==> (#[trigger] seq_clips@[m])@.len() == 0,
            decreases sizes.len() - k,
        {
            seq_clips.push(Vec::new());
            k = k + 1;
        }
        let mut p = Progress {
            clip_times: Vec::new(),
            durations: Vec::new(),
            seq_clips,
            clip_index: clip0,
            segment_index: seg0,
            first: None,
        };
        let ghost pl0 = *self;
        let ghost c = Params {
            pl: pl0,
            now: now as int,
            from: from as int,
            seg: seg as int,
            clip0: clip0 as int,
            seg0: seg0 as int,
            sizes: sizes@,
        };
        assert(start_of(pl0, now as int) == (clip0 as int, seg0 as int, from as int));
        let ghost mut processed: Seq<Slot> = Seq::empty();
        let ghost mut i: nat = 0;
        let ghost phi0 = distance(pl0, d0 as int, now as int) + 8 * 128;
        proof {
            assert(returned_of(processed, now as int) =~= Seq::<Slot>::empty());
            assert(counted_of(processed, from as int) =~= Seq::<Slot>::empty());
            assert(progress_ok(c, processed, p));
            lemma_mutual_list_member(pl0.clips@, 5, 0);
            assert(crate::vod::meta::state::has_clips(pl0.clips@));
            let d = choose|d: int| 0 <= d < pl0.clips@.len() && (#[trigger] pl0.clips@[d])@.len() > 0;
            let w = weekday_of(d0 as int);
            lemma_gap_bound(pl0.clips@, w, 0, (d - w + 7) % 7);
            assert((w + (d - w + 7) % 7) % 7 == d);
            assert(phi0 <= PHI_BOUND);
        }
        let ghost at_bound: int = (if now >= from {
            now as int
        } else {
            from as int
        }) + 9 * 86400;
        let mut day = d0;
        let mut full = false;
        let ghost mut m: int = 0;
        while !full
            invariant
                p.clip_index <= clip0 + 86400 * (i + 1),
                p.segment_index <= seg0 + 86400 * 17280 * (i + 1),
                p.first is Some ==> p.first->Some_0.at < at_bound,
                at_bound == (if now >= from {
                    now as int
                } else {
                    from as int
                }) + 9 * 86400,
                params_ok(c),
                c.pl == pl0,
                pl0 == *self,
                c.now == now,
                c.from == from,
                c.seg == seg,
                c.sizes == sizes@,
                c.clip0 == clip0,
                c.seg0 == seg0,
                clip0 <= 0x8000_0000_0000_0000u64,
                seg0 <= 0x8000_0000_0000_0000u64,
                off == pl0.tz.offset(),
                -86400 < off < 86400,
                -(2 * TIME_BOUND) / 86400 - 2 <= d0 <= (2 * TIME_BOUND) / 86400 + 2,
                d0 == day_of(from as int, off as int),
                day == d0 + i,
                phi0 == distance(pl0, d0 as int, now as int) + 8 * 128,
                phi0 <= PHI_BOUND,
                i <= phi0,
                crate::vod::meta::state::has_clips(pl0.clips@),
                !full ==> p.clip_index <= clip0 + 86400 * i,
                !full ==> p.segment_index <= seg0 + 86400 * 17280 * i,
                !full ==> processed == timeline(pl0, d0 as int, i) && progress_ok(c, processed, p)
                    && returned_of(processed, now as int).len() < 128 && i + distance(
                    pl0,
                    day as int,
                    now as int,
                ) + 8 * (128 - returned_of(processed, now as int).len()) <= phi0 && distance(
                    pl0,
                    day as int,
                    now as int,
                ) >= 0,
                full ==> processed == timeline(pl0, d0 as int, i) + slots_of_day(
                    pl0,
                    day as int,
                ).take(m) && 0 <= m <= slots_of_day(pl0, day as int).len() && progress_out_ok(
                    c,
                    processed,
                    p,
                ) && returned_of(processed, now as int).len() == 128 && i + 1 <= phi0 + 1,
            decreases (if full {
                0
            } else {
                1 + distance(pl0, day as int, now as int) + 8 * (128 - returned_of(
                    processed,
                    now as int,
                ).len())
            }),
        {
            let ghost before = returned_of(processed, now as int).len();
            proof {
                assert(86400 * 17280 * i <= 86400 * 17280 * (PHI_BOUND as int)) by (nonlinear_arith)
                    requires
                        i <= PHI_BOUND,
                ;
                assert(86400 * i <= 86400 * (PHI_BOUND as int)) by (nonlinear_arith)
                    requires
                        i <= PHI_BOUND,
                ;
                assert(86400 * 17280 * (i + 1) == 86400 * 17280 * i + 86400 * 17280)
                    by (nonlinear_arith);
                assert(86400 * 17280 * (i + 2) == 86400 * 17280 * (i + 1) + 86400 * 17280)
                    by (nonlinear_arith);
                if p.first is None {
                    assert(before == 0);
                    assert(i <= distance(pl0, d0 as int, now as int));
                    lemma_first_day_bound(pl0, d0 as int, i as int, now as int, from as int, off as int);
                    assert(day * 86400 - off + 86400 <= at_bound);
                }
            }
            let (f, Ghost(done)) = schedule_day(
                self,
                &sizes,
                now,
                from,
                seg,
                off,
                day,
                &mut p,
                Ghost(c),
                Ghost(processed),
            );
            if f {
                proof {
                    m = done.len() as int;
                    processed = processed + done;
                }
                full = true;
            } else {
                proof {
                    let all = slots_of_day(pl0, day as int);
                    lemma_returned_append(processed, done, now as int);
                    if day_start(day as int, off as int) > now && pl0.clips@[weekday_of(
                        day as int,
                    )]@.len() > 0 {
                        lemma_future_day_returned(pl0, day as int, now as int);
                    }
                    lemma_distance_step(
                        pl0,
                        day as int,
                        now as int,
                        before as nat,
                        returned_of(processed + done, now as int).len(),
                    );
                    processed = processed + done;
                    assert(86400 * 17280 * (i + 1) == 86400 * 17280 * i + 86400 * 17280)
                        by (nonlinear_arith);
                    i = i + 1;
                }
                day = day + 1;
            }
        }
        let ghost tl = timeline(pl0, d0 as int, horizon(pl0, now as int));
        proof {
            let all = slots_of_day(pl0, day as int);
            let rest = timeline(pl0, day + 1, (horizon(pl0, now as int) - i - 1) as nat);
            lemma_timeline_split(pl0, d0 as int, i + 1, (horizon(pl0, now as int) - i - 1) as nat);
            assert(timeline(pl0, d0 as int, i + 1) == timeline(pl0, d0 as int, i) + all);
            assert(all =~= all.take(m) + all.skip(m));
            assert(tl =~= processed + (all.skip(m) + rest));
            lemma_returned_append(processed, all.skip(m) + rest, now as int);
            assert(returned_of(tl, now as int).take(128) =~= returned_of(processed, now as int));
            lemma_first_position_some(processed, now as int, from as int, seg as int, clip0 as int, seg0 as int);
            lemma_first_position_append(
                processed,
                all.skip(m) + rest,
                now as int,
                from as int,
                seg as int,
                clip0 as int,
                seg0 as int,
            );
        }
        let first = p.first.unwrap();
        self.initial = Some(first);
        set.initial_clip_index = Some(first.clip_index);
        set.initial_segment_index = Some(first.segment_index);
        set.durations = p.durations;
        set.clip_times = p.clip_times;
        let mut seq_clips = p.seq_clips;
        let ghost all_clips = seq_clips@;
        let mut sequences: Vec<Sequence> = Vec::new();
        let mut k: usize = 0;
        while k < sizes.len()
            invariant
                k <= sizes.len(),
                all_clips.len() == sizes@.len(),
                seq_clips@ == all_clips.skip(k as int),
                sequences@.len() == k,
                forall|q: int|
                    0 <= q < k ==> {
                        let sq = #[trigger] sequences@[q];
                        &&& sq.id matches Some(id) && id@ == sequence_name(sizes@[q])
                        &&& sq.label matches Some(l) && l@ == sequence_name(sizes@[q])
                        &&& sq.language matches Some(l) && l@ == pl0.lang@
                        &&& sq.clips == all_clips[q]
                    },
                pl0.lang@ == self.lang@,
            decreases sizes.len() - k,
        {
            let clips = seq_clips.remove(0);
            assert(clips == all_clips[k as int]);
            assert(seq_clips@ =~= all_clips.skip(k + 1));
            sequences.push(
                Sequence {
                    id: Some(sequence_name_exec(sizes[k])),
                    language: Some(self.lang.clone()),
                    label: Some(sequence_name_exec(sizes[k])),
                    clips,
                },
            );
            k = k + 1;
        }
        set.sequences = sequences;
        proof {
            let out = schedule_slots(pl0, now as int);
            assert forall|q: int| 0 <= q < sizes@.len() implies {
                let sq = #[trigger] set.sequences@[q];
                &&& sq.id matches Some(id) && id@ == sequence_name(sizes@[q])
                &&& sq.label matches Some(l) && l@ == sequence_name(sizes@[q])
                &&& sq.language matches Some(l) && l@ == pl0.lang@
                &&& sq.clips@.len() == out.len()
                &&& forall|i: int|
                    0 <= i < out.len() ==> media_clip_of(
                        #[trigger] sq.clips@[i],
                        clip_at(pl0, out[i]),
                        sizes@[q],
                    )
            } by {
                assert(set.sequences@[q].clips == all_clips[q]);
            }
        }
        set
    }
}


/// Schedules the given playlist to be played by `nginx-vod-module` for the
/// week from now on; see [`schedule_week_at`].
pub fn schedule_nginx_vod_module_set(pl: &Playlist) -> (set: MediaSet)
    requires
        playable(*pl),
    ensures
        exists|now: int| -TIME_BOUND < now < TIME_BOUND && week_scheduled(*pl, now, set),
{
    let now = utc_now_secs();
    schedule_week_at(pl, now)
}

/// Schedules the given playlist to be played by `nginx-vod-module` for the
/// week from `now` (in seconds since the UNIX epoch) on.
///
/// Each of the seven days from today on, in the playlist's timezone, is
/// filled with the clips of its weekday looped without gaps; clips that
/// finished by `now` are left out, and the schedule holds at most 128 clips.
/// Only the resolutions that all clips have are scheduled, one sequence for
/// each, lowest first; without any, the schedule is empty.
#[verifier::spinoff_prover]
#[verifier::rlimit(40)]
pub fn schedule_week_at(pl: &Playlist, now: i64) -> (set: MediaSet)
    requires
        playable(*pl),
        -TIME_BOUND < now < TIME_BOUND,
    ensures
        week_scheduled(*pl, now as int, set),
{
    let mut set = MediaSet::new();
    set.id = Some(pl.slug.as_str().to_owned());
    set.playlist_type = PlaylistType::Live;
    set.discontinuity = true;
    let seg = pl.segment_duration.as_duration();
    set.segment_duration = Some(MillisDuration(seg as u128 * 1000));
    let sizes = pl.mutual_src_sizes();
    if sizes.len() == 0 {
        return set;
    }
    let off = pl.tz.local_minus_utc() as i64;
    let today = day_of_exec(now, off);
    let from: i64 = today * 86400 - off;
    let later: i64 = now + 60;
    let mut seq_clips: Vec<Vec<MappingClip>> = Vec::new();
    let mut k: usize = 0;
    while k < sizes.len()
        invariant
            k <= sizes.len(),
            seq_clips@.len() == k,
            forall|m: int| 0 <= m < k ==> (#[trigger] seq_clips@[m])@.len() == 0,
        decreases sizes.len() - k,
    {
        seq_clips.push(Vec::new());
        k = k + 1;
    }
    let mut p = Progress {
        clip_times: Vec::new(),
        durations: Vec::new(),
        seq_clips,
        clip_index: 0,
        segment_index: 0,
        first: None,
    };
    let ghost c = Params {
        pl: *pl,
        now: later as int,
        from: from as int,
        seg: seg as int,
        clip0: 0,
        seg0: 0,
        sizes: sizes@,
    };
    let ghost mut processed: Seq<Slot> = Seq::empty();
    proof {
        assert(returned_of(processed, later as int) =~= Seq::<Slot>::empty());
        assert(counted_of(processed, from as int) =~= Seq::<Slot>::empty());
        assert(progress_ok(c, processed, p));
    }
    let mut d: i64 = 0;
    let mut full = false;
    let ghost mut m: int = 0;
    while d < 7 && !full
        invariant
            params_ok(c),
            c.pl == *pl,
            c.now == later,
            c.from == from,
            c.seg == seg,
            c.sizes == sizes@,
            c.clip0 == 0,
            c.seg0 == 0,
            later == now + 60,
            off == pl.tz.offset(),
            -86400 < off < 86400,
            -(2 * TIME_BOUND) / 86400 - 2 <= today <= (2 * TIME_BOUND) / 86400 + 2,
            today == day_of(now as int, off as int),
            0 <= d <= 7,
            !full ==> processed == timeline(*pl, today as int, d as nat) && progress_ok(c, processed, p)
                && returned_of(processed, later as int).len() < 128 && p.clip_index <= 86400 * d
                && p.segment_index <= 86400 * 17280 * d,
            full ==> d < 7 && processed == timeline(*pl, today as int, d as nat) + slots_of_day(
                *pl,
                today + d,
            ).take(m) && 0 <= m <= slots_of_day(*pl, today + d).len() && progress_out_ok(
                c,
                processed,
                p,
            ) && returned_of(processed, later as int).len() == 128,
        decreases (7 - d) * 2 + if full {
            0int
        } else {
            1int
        },
    {
        proof {
            assert(86400 * 17280 * d <= 86400 * 17280 * 7) by (nonlinear_arith)
                requires
                    d <= 7,
            ;
        }
        let (f, Ghost(done)) = schedule_day(
            pl,
            &sizes,
            later,
            from,
            seg,
            off,
            today + d,
            &mut p,
            Ghost(c),
            Ghost(processed),
        );
        if f {
            proof {
                m = done.len() as int;
                processed = processed + done;
            }
            full = true;
        } else {
            proof {
                processed = processed + done;
                assert(timeline(*pl, today as int, (d + 1) as nat) == timeline(*pl, today as int, d as nat)
                    + slots_of_day(*pl, today + d));
                assert(86400 * 17280 * (d + 1) == 86400 * 17280 * d + 86400 * 17280)
                    by (nonlinear_arith);
            }
            d = d + 1;
        }
    }
    let ghost tl = timeline(*pl, today as int, 7);
    proof {
        if full {
            let all = slots_of_day(*pl, today + d);
            let rest = timeline(*pl, today + d + 1, (6 - d) as nat);
            lemma_timeline_split(*pl, today as int, (d + 1) as nat, (6 - d) as nat);
            assert(timeline(*pl, today as int, (d + 1) as nat) == timeline(*pl, today as int, d as nat) + all);
            assert(all =~= all.take(m) + all.skip(m));
            assert(tl =~= processed + (all.skip(m) + rest));
            lemma_returned_append(processed, all.skip(m) + rest, later as int);
            assert(returned_of(tl, later as int).take(128) =~= returned_of(processed, later as int));
            if returned_of(tl, later as int).len() <= 128 {
                assert(returned_of(tl, later as int) =~= returned_of(processed, later as int));
            }
        } else {
            assert(d == 7);
            assert(tl == processed);
        }
        assert(week_slots(*pl, now as int) == returned_of(processed, later as int));
    }
    set.durations = p.durations;
    set.clip_times = p.clip_times;
    let mut seq_clips = p.seq_clips;
    let ghost all_clips = seq_clips@;
    let mut sequences: Vec<Sequence> = Vec::new();
    let mut k: usize = 0;
    while k < sizes.len()
        invariant
            k <= sizes.len(),
            all_clips.len() == sizes@.len(),
            seq_clips@ == all_clips.skip(k as int),
            sequences@.len() == k,
            forall|q: int|
                0 <= q < k ==> {
                    let sq = #[trigger] sequences@[q];
                    &&& sq.id matches Some(id) && id@ == sequence_name(sizes@[q])
                    &&& sq.label matches Some(l) && l@ == sequence_name(sizes@[q])
                    &&& sq.language matches Some(l) && l@ == pl.lang@
                    &&& sq.clips == all_clips[q]
                },
        decreases sizes.len() - k,
    {
        let clips = seq_clips.remove(0);
        assert(clips == all_clips[k as int]);
        assert(seq_clips@ =~= all_clips.skip(k + 1));
        sequences.push(
            Sequence {
                id: Some(sequence_name_exec(sizes[k])),
                language: Some(pl.lang.clone()),
                label: Some(sequence_name_exec(sizes[k])),
                clips,
            },
        );
        k = k + 1;
    }
    set.sequences = sequences;
    set
}

} // verus!

verus! {

/// The slots of a day belong to it, start within the given time window, and
/// follow one another in time.
proof fn lemma_day_slots_order(clips: Seq<Clip>, day: int, t: int, end: int, k: int)
    ensures
        forall|i: int|
            0 <= i < day_slots(clips, day, t, end, k).len() ==> {
                let s = #[trigger] day_slots(clips, day, t, end, k)[i];
                &&& s.day == day
                &&& t <= s.start < end
            },
        forall|i: int, j: int|
            0 <= i < j < day_slots(clips, day, t, end, k).len() ==> (#[trigger] day_slots(
                clips,
                day,
                t,
                end,
                k,
            )[i]).start < (#[trigger] day_slots(clips, day, t, end, k)[j]).start,
    decreases (if t < end {
        end - t
    } else {
        0
    }),
{
    if t >= end || clips.len() == 0 || k < 0 {
    } else {
        let pos = k % (clips.len() as int);
        let d = clip_secs(clips[pos]);
        if d > 0 {
            lemma_day_slots_order(clips, day, t + d, end, k + 1);
            let rest = day_slots(clips, day, t + d, end, k + 1);
            let all = day_slots(clips, day, t, end, k);
            assert(all == seq![Slot { day, pos, start: t, dur: d }] + rest);
            assert forall|i: int| 0 < i < all.len() implies all[i] == rest[i - 1] by {}
        }
    }
}

/// The slots of a timeline belong to its days, start within their day, and
/// follow one another in time.
proof fn lemma_timeline_order(pl: Playlist, d0: int, n: nat)
    ensures
        forall|i: int|
            0 <= i < timeline(pl, d0, n).len() ==> {
                let s = #[trigger] timeline(pl, d0, n)[i];
                &&& d0 <= s.day < d0 + n
                &&& day_start(s.day, pl.tz.offset()) <= s.start < day_start(s.day, pl.tz.offset())
                    + 86400
            },
        forall|i: int, j: int|
            0 <= i < j < timeline(pl, d0, n).len() ==> (#[trigger] timeline(pl, d0, n)[i]).start
                < (#[trigger] timeline(pl, d0, n)[j]).start,
    decreases n,
{
    if n > 0 {
        let prev = timeline(pl, d0, (n - 1) as nat);
        let day = d0 + n - 1;
        let last = slots_of_day(pl, day);
        let ds = day_start(day, pl.tz.offset());
        lemma_timeline_order(pl, d0, (n - 1) as nat);
        lemma_day_slots_order(pl.clips@[weekday_of(day)]@, day, ds, ds + 86400, 0);
        let all = timeline(pl, d0, n);
        assert(all == prev + last);
        assert forall|i: int| 0 <= i < all.len() implies {
            let s = #[trigger] all[i];
            &&& d0 <= s.day < d0 + n
            &&& day_start(s.day, pl.tz.offset()) <= s.start < day_start(s.day, pl.tz.offset()) + 86400
        } by {
            if i >= prev.len() {
                assert(all[i] == last[i - prev.len()]);
            }
        }
        assert forall|i: int, j: int| 0 <= i < j < all.len() implies (#[trigger] all[i]).start
            < (#[trigger] all[j]).start by {
            if j >= prev.len() {
                assert(all[j] == last[j - prev.len()]);
                if i >= prev.len() {
                    assert(all[i] == last[i - prev.len()]);
                } else {
                    assert(all[i] == prev[i]);
                    let a = prev[i].day;
                    assert(a + 1 <= day);
                    assert(day_start(a, pl.tz.offset()) + 86400 <= ds) by (nonlinear_arith)
                        requires
                            a + 1 <= day,
                            ds == day * 86400 - pl.tz.offset(),
                    ;
                }
            }
        }
    }
}

/// Where none of the slots are worth serving, none is returned, and
/// conversely.
proof fn lemma_returned_none(s: Seq<Slot>, now: int)
    requires
        returned_of(s, now).len() == 0,
    ensures
        forall|i: int| 0 <= i < s.len() ==> !is_returned(#[trigger] s[i], now),
    decreases s.len(),
{
    if s.len() > 0 {
        lemma_returned_none(s.drop_last(), now);
        assert forall|i: int| 0 <= i < s.len() implies !is_returned(#[trigger] s[i], now) by {
            if i < s.len() - 1 {
                assert(s[i] == s.drop_last()[i]);
            }
        }
    }
}

/// The first returned slot is the first slot worth serving.
proof fn lemma_returned_first(s: Seq<Slot>, now: int) -> (j: int)
    requires
        returned_of(s, now).len() > 0,
    ensures
        0 <= j < s.len(),
        returned_of(s, now)[0] == s[j],
        is_returned(s[j], now),
        forall|i: int| 0 <= i < j ==> !is_returned(#[trigger] s[i], now),
    decreases s.len(),
{
    let r = returned_of(s.drop_last(), now);
    if r.len() > 0 {
        let j = lemma_returned_first(s.drop_last(), now);
        assert(s[j] == s.drop_last()[j]);
        assert forall|i: int| 0 <= i < j implies !is_returned(#[trigger] s[i], now) by {
            assert(s[i] == s.drop_last()[i]);
        }
        if is_returned(s.last(), now) {
            assert(r.push(s.last())[0] == r[0]);
        }
        j
    } else {
        lemma_returned_none(s.drop_last(), now);
        assert forall|i: int| 0 <= i < s.len() - 1 implies !is_returned(#[trigger] s[i], now) by {
            assert(s[i] == s.drop_last()[i]);
        }
        assert(returned_of(s, now) == r.push(s.last()));
        (s.len() - 1) as int
    }
}

/// The gap to a day with clips is never negative.
proof fn lemma_gap_nonneg(week: Seq<Vec<Clip>>, w: int, k: int)
    requires
        0 <= k,
    ensures
        gap_from(week, w, k) >= 0,
    decreases 7 - k,
{
    if k < 7 && week[(w + k) % 7]@.len() == 0 {
        lemma_gap_nonneg(week, w, k + 1);
    }
}

/// A timeline of at least one day starts with that day's slots.
proof fn lemma_timeline_first_day(pl: Playlist, d0: int, n: nat)
    requires
        n >= 1,
    ensures
        timeline(pl, d0, n) == slots_of_day(pl, d0) + timeline(pl, d0 + 1, (n - 1) as nat),
        forall|i: int|
            0 <= i < timeline(pl, d0 + 1, (n - 1) as nat).len() ==> (#[trigger] timeline(
                pl,
                d0 + 1,
                (n - 1) as nat,
            )[i]).day >= d0 + 1,
{
    lemma_timeline_split(pl, d0, 1, (n - 1) as nat);
    assert(timeline(pl, d0, 1) == timeline(pl, d0, 0) + slots_of_day(pl, d0));
    assert(timeline(pl, d0, 0) + slots_of_day(pl, d0) =~= slots_of_day(pl, d0));
    lemma_timeline_order(pl, d0 + 1, (n - 1) as nat);
}

/// Scheduling a playlist again, later, goes on from where the previous
/// schedule started: the clip and segment indices of the new schedule are at
/// least those of the previous one, and its first clip starts no earlier.
/// So `nginx-vod-module` sees the numbering of a live playlist only grow.
pub proof fn lemma_schedule_advances(
    pl: Playlist,
    now1: int,
    now2: int,
    s1: MediaSet,
    pl1: Playlist,
    s2: MediaSet,
    pl2: Playlist,
)
    requires
        now1 <= now2,
        mutual_list(pl.clips@).len() > 0,
        scheduled(pl, now1, s1, pl1),
        scheduled(pl1, now2, s2, pl2),
    ensures
        s1.initial_clip_index matches Some(c1) && s2.initial_clip_index matches Some(c2) && c1 <= c2,
        s1.initial_segment_index matches Some(g1) && s2.initial_segment_index matches Some(g2) && g1
            <= g2,
        s1.clip_times@.len() > 0 && s2.clip_times@.len() > 0,
        s1.clip_times@[0].0 <= s2.clip_times@[0].0,
{
    let off = pl.tz.offset();
    let out1 = schedule_slots(pl, now1);
    let first1 = schedule_position(pl, now1)->Some_0;
    assert(pl1 == (Playlist { initial: Some(first1), ..pl }));
    assert(pl1.clips == pl.clips && pl1.tz == pl.tz);
    // Where the first schedule starts.
    let from1 = start_of(pl, now1).2;
    let d1 = day_of(from1, off);
    let h1 = horizon(pl, now1);
    let t1 = timeline(pl, d1, h1);
    assert(out1 == returned_of(t1, now1).take(128));
    assert(out1[0] == returned_of(t1, now1)[0]);
    let j1 = lemma_returned_first(t1, now1);
    lemma_timeline_order(pl, d1, h1);
    let slot1 = t1[j1];
    let at1 = slot1.start;
    assert(first1.at == at1);
    let d = slot1.day;
    assert(d1 <= d < d1 + h1);
    assert(day_of(at1, off) == d) by {
        assert(d * 86400 <= at1 + off < d * 86400 + 86400);
        assert((at1 + off) / 86400 == d) by (nonlinear_arith)
            requires
                d * 86400 <= at1 + off < d * 86400 + 86400,
        ;
    }
    // The first schedule's timeline: the days before `d`, `d`, and the rest.
    let m = (d - d1) as nat;
    let rest_n = (h1 - m) as nat;
    lemma_timeline_split(pl, d1, m, rest_n);
    lemma_timeline_first_day(pl, d, rest_n);
    lemma_timeline_order(pl, d1, m);
    let a = timeline(pl, d1, m);
    let b = slots_of_day(pl, d);
    let c = timeline(pl, d + 1, (rest_n - 1) as nat);
    assert(t1 =~= a + b + c);
    assert(a.len() <= j1 < a.len() + b.len()) by {
        if j1 < a.len() {
            assert(t1[j1] == a[j1]);
        } else if j1 >= a.len() + b.len() {
            assert(t1[j1] == c[j1 - a.len() - b.len()]);
        }
    }
    let q = j1 - a.len();
    assert(b[q] == slot1);
    assert forall|i: int| 0 <= i < q implies !is_returned(#[trigger] b[i], now2) by {
        assert(b[i] == t1[a.len() + i]);
        assert(!is_returned(t1[a.len() + i], now1));
    }
    // The second schedule starts on day `d`, where the first one's first
    // clip is.
    assert(start_of(pl1, now2) == (first1.clip_index as int, first1.segment_index as int, at1));
    let h2 = horizon(pl1, now2);
    let t2 = timeline(pl1, d, h2);
    let ds = day_start(d, off);
    if ds > now2 {
        lemma_gap_nonneg(pl1.clips@, weekday_of(d), 0);
    }
    assert(h2 >= 1);
    lemma_timeline_first_day(pl1, d, h2);
    assert(slots_of_day(pl1, d) == b);
    let out2 = schedule_slots(pl1, now2);
    let first2 = schedule_position(pl1, now2)->Some_0;
    assert(out2 == returned_of(t2, now2).take(128));
    assert(out2[0] == returned_of(t2, now2)[0]);
    let j2 = lemma_returned_first(t2, now2);
    lemma_timeline_order(pl1, d, h2);
    assert(t2[q] == b[q]);
    assert(j2 >= q) by {
        if j2 < q {
            assert(t2[j2] == b[j2]);
        }
    }
    assert(t2[j2].start >= at1) by {
        if j2 > q {
            assert(t2[q].start < t2[j2].start);
        }
    }
    assert(first2.at == out2[0].start);
    assert(s1.durations@[0] == MillisDuration((out1[0].dur * 1000) as u128));
    assert(s2.durations@[0] == MillisDuration((out2[0].dur * 1000) as u128));
    assert(s1.clip_times@[0] == MillisDateTime((out1[0].start * 1000) as i128));
    assert(s2.clip_times@[0] == MillisDateTime((out2[0].start * 1000) as i128));
    assert(i64::MIN <= at1 <= t2[j2].start <= i64::MAX);
}


/// Total duration, in seconds, of the given clips played one after another.
pub open spec fn clips_total(cs: Seq<Clip>) -> int
    decreases cs.len(),
{
    if cs.len() == 0 {
        0
    } else {
        clips_total(cs.drop_last()) + clip_secs(cs.last())
    }
}

/// Whether the clips of every weekday of a playlist that has any fill a day
/// a whole number of times, so that the last clip of a day finishes by the
/// end of the day.
pub open spec fn days_fit(pl: Playlist) -> bool {
    forall|d: int|
        0 <= d < 7 && (#[trigger] pl.clips@[d])@.len() > 0 ==> clips_total(pl.clips@[d]@) > 0
            && 86400int % clips_total(pl.clips@[d]@) == 0
}

/// Totals of the first clips grow clip by clip, up to the total of all.
proof fn lemma_partial_totals(cs: Seq<Clip>, r: int)
    requires
        0 <= r < cs.len(),
        forall|i: int| 0 <= i < cs.len() ==> clip_secs(#[trigger] cs[i]) > 0,
    ensures
        clips_total(cs.take(r + 1)) == clips_total(cs.take(r)) + clip_secs(cs[r]),
        0 <= clips_total(cs.take(r)),
        clips_total(cs.take(r + 1)) <= clips_total(cs),
    decreases cs.len(),
{
    assert(cs.take(r + 1).drop_last() =~= cs.take(r));
    assert(cs.take(r + 1).last() == cs[r]);
    lemma_totals_nonneg(cs.take(r));
    if r + 1 == cs.len() {
        assert(cs.take(r + 1) =~= cs);
    } else {
        lemma_partial_totals(cs.drop_last(), r);
        assert(cs.drop_last().take(r + 1) =~= cs.take(r + 1));
        assert(cs.drop_last().take(r) =~= cs.take(r));
        assert(cs.drop_last()[r] == cs[r]);
        assert forall|i: int| 0 <= i < cs.drop_last().len() implies clip_secs(
            #[trigger] cs.drop_last()[i],
        ) > 0 by {
            assert(cs.drop_last()[i] == cs[i]);
        }
        assert(clip_secs(cs.last()) > 0);
    }
}

/// Totals of clips of positive durations are not negative.
proof fn lemma_totals_nonneg(cs: Seq<Clip>)
    requires
        forall|i: int| 0 <= i < cs.len() ==> clip_secs(#[trigger] cs[i]) > 0,
    ensures
        clips_total(cs) >= 0,
    decreases cs.len(),
{
    if cs.len() > 0 {
        assert forall|i: int| 0 <= i < cs.drop_last().len() implies clip_secs(
            #[trigger] cs.drop_last()[i],
        ) > 0 by {
            assert(cs.drop_last()[i] == cs[i]);
        }
        lemma_totals_nonneg(cs.drop_last());
        assert(clip_secs(cs[cs.len() - 1]) > 0);
    }
}

/// The slots of a day follow one another without gaps, the first starting at
/// the given time.
proof fn lemma_day_slots_contiguous(clips: Seq<Clip>, day: int, t: int, end: int, k: int)
    ensures
        day_slots(clips, day, t, end, k).len() > 0 ==> day_slots(clips, day, t, end, k)[0].start
            == t,
        forall|i: int|
            0 <= i < day_slots(clips, day, t, end, k).len() - 1 ==> (#[trigger] day_slots(
                clips,
                day,
                t,
                end,
                k,
            )[i + 1]).start == day_slots(clips, day, t, end, k)[i].start + day_slots(
                clips,
                day,
                t,
                end,
                k,
            )[i].dur,
        forall|i: int|
            0 <= i < day_slots(clips, day, t, end, k).len() ==> (#[trigger] day_slots(
                clips,
                day,
                t,
                end,
                k,
            )[i]).dur > 0,
    decreases (if t < end {
        end - t
    } else {
        0
    }),
{
    if t >= end || clips.len() == 0 || k < 0 {
    } else {
        let pos = k % (clips.len() as int);
        let d = clip_secs(clips[pos]);
        if d > 0 {
            lemma_day_slots_contiguous(clips, day, t + d, end, k + 1);
            let rest = day_slots(clips, day, t + d, end, k + 1);
            let all = day_slots(clips, day, t, end, k);
            assert(all == seq![Slot { day, pos, start: t, dur: d }] + rest);
            assert forall|i: int| 0 < i < all.len() implies all[i] == rest[i - 1] by {}
            assert forall|i: int| 0 <= i < all.len() - 1 implies (#[trigger] all[i + 1]).start
                == all[i].start + all[i].dur by {
                assert(all[i + 1] == rest[i]);
                if i > 0 {
                    assert(all[i] == rest[i - 1]);
                    assert(rest[(i - 1) + 1].start == rest[i - 1].start + rest[i - 1].dur);
                }
            }
        }
    }
}

/// Where the clips fill the rest of a day a whole number of times (counting
/// the clips already played in the current loop), every slot finishes by
/// the end of the day.
proof fn lemma_day_slots_fit(clips: Seq<Clip>, day: int, t: int, end: int, k: int)
    requires
        clips.len() > 0,
        k >= 0,
        forall|i: int| 0 <= i < clips.len() ==> clip_secs(#[trigger] clips[i]) > 0,
        clips_total(clips) > 0,
        (end - t + clips_total(clips.take(k % (clips.len() as int)))) % clips_total(clips) == 0,
    ensures
        forall|i: int|
            0 <= i < day_slots(clips, day, t, end, k).len() ==> (#[trigger] day_slots(
                clips,
                day,
                t,
                end,
                k,
            )[i]).start + day_slots(clips, day, t, end, k)[i].dur <= end,
    decreases (if t < end {
        end - t
    } else {
        0
    }),
{
    if t < end {
        let n = clips.len() as int;
        let total = clips_total(clips);
        let r = k % n;
        let d = clip_secs(clips[r]);
        let p = clips_total(clips.take(r));
        lemma_partial_totals(clips, r);
        let x = end - t + p;
        assert(x >= total) by (nonlinear_arith)
            requires
                x % total == 0,
                x > 0,
                total > 0,
        ;
        assert(t + d <= end);
        lemma_next_pos(k, n);
        let r2 = (k + 1) % n;
        if r + 1 < n {
            assert((r + 1) % n == r + 1) by (nonlinear_arith)
                requires
                    0 <= r + 1 < n,
            ;
        } else {
            assert((r + 1) % n == 0) by (nonlinear_arith)
                requires
                    r + 1 == n,
                    n > 0,
            ;
            assert(clips.take(r + 1) =~= clips);
            assert(clips.take(0) =~= Seq::<Clip>::empty());
            assert((x - total) % total == 0) by (nonlinear_arith)
                requires
                    x % total == 0,
                    total > 0,
            ;
        }
        lemma_day_slots_fit(clips, day, t + d, end, k + 1);
        let rest = day_slots(clips, day, t + d, end, k + 1);
        let all = day_slots(clips, day, t, end, k);
        assert(all == seq![Slot { day, pos: r, start: t, dur: d }] + rest);
        assert forall|i: int| 0 <= i < all.len() implies (#[trigger] all[i]).start + all[i].dur
            <= end by {
            if i > 0 {
                assert(all[i] == rest[i - 1]);
            }
        }
    }
}

/// Where the clips of every weekday fill a day a whole number of times, the
/// slots of a timeline never overlap: each finishes by the end of its day,
/// and by the start of every later slot.
proof fn lemma_timeline_tiles(pl: Playlist, d0: int, n: nat)
    requires
        pl.wf(),
        days_fit(pl),
    ensures
        forall|i: int|
            0 <= i < timeline(pl, d0, n).len() ==> (#[trigger] timeline(pl, d0, n)[i]).dur > 0
                && timeline(pl, d0, n)[i].start + timeline(pl, d0, n)[i].dur <= day_start(
                timeline(pl, d0, n)[i].day,
                pl.tz.offset(),
            ) + 86400,
        forall|i: int, j: int|
            0 <= i < j < timeline(pl, d0, n).len() ==> (#[trigger] timeline(pl, d0, n)[i]).start
                + timeline(pl, d0, n)[i].dur <= (#[trigger] timeline(pl, d0, n)[j]).start,
    decreases n,
{
    lemma_timeline_order(pl, d0, n);
    if n > 0 {
        let prev = timeline(pl, d0, (n - 1) as nat);
        let day = d0 + n - 1;
        let off = pl.tz.offset();
        let ds = day_start(day, off);
        let w = weekday_of(day);
        let cs = pl.clips@[w]@;
        let last = slots_of_day(pl, day);
        lemma_timeline_tiles(pl, d0, (n - 1) as nat);
        lemma_timeline_order(pl, d0, (n - 1) as nat);
        lemma_day_slots_order(cs, day, ds, ds + 86400, 0);
        lemma_day_slots_contiguous(cs, day, ds, ds + 86400, 0);
        assert(0 <= w < 7);
        if cs.len() > 0 {
            assert forall|i: int| 0 <= i < cs.len() implies clip_secs(#[trigger] cs[i]) > 0 by {
                assert(pl.clips@[w]@[i].view.from < pl.clips@[w]@[i].view.to);
            }
            assert(cs.take(0) =~= Seq::<Clip>::empty());
            assert(pl.clips@[w]@.len() > 0);
            lemma_day_slots_fit(cs, day, ds, ds + 86400, 0);
        }
        let all = timeline(pl, d0, n);
        assert(all == prev + last);
        assert forall|i: int| 0 <= i < all.len() implies (#[trigger] all[i]).dur > 0 && all[i].start
            + all[i].dur <= day_start(all[i].day, off) + 86400 by {
            if i >= prev.len() {
                assert(all[i] == last[i - prev.len()]);
            } else {
                assert(all[i] == prev[i]);
            }
        }
        assert forall|i: int, j: int| 0 <= i < j < all.len() implies (#[trigger] all[i]).start
            + all[i].dur <= (#[trigger] all[j]).start by {
            if j < prev.len() {
                assert(all[i] == prev[i] && all[j] == prev[j]);
            } else if i < prev.len() {
                assert(all[i] == prev[i]);
                assert(all[j] == last[j - prev.len()]);
                let a = prev[i].day;
                assert(a + 1 <= day);
                assert(day_start(a, off) + 86400 <= ds) by (nonlinear_arith)
                    requires
                        a + 1 <= day,
                        ds == day * 86400 - off,
                ;
            } else {
                let x = i - prev.len();
                let y = j - prev.len();
                assert(all[i] == last[x]);
                assert(all[j] == last[y]);
                assert(last[x + 1].start == last[x].start + last[x].dur);
                if x + 1 < y {
                    assert(last[x + 1].start < last[y].start);
                }
                assert(all[i + 1] == last[x + 1]);
            }
        }
    }
}

/// Every returned slot is one of the given slots.
proof fn lemma_returned_in(s: Seq<Slot>, now: int)
    ensures
        forall|a: int|
            0 <= a < returned_of(s, now).len() ==> exists|i: int|
                0 <= i < s.len() && #[trigger] returned_of(s, now)[a] == s[i],
    decreases s.len(),
{
    if s.len() > 0 {
        let r = returned_of(s.drop_last(), now);
        lemma_returned_in(s.drop_last(), now);
        assert forall|a: int| 0 <= a < returned_of(s, now).len() implies exists|i: int|
            0 <= i < s.len() && #[trigger] returned_of(s, now)[a] == s[i] by {
            if a < r.len() {
                let i = choose|i: int| 0 <= i < s.drop_last().len() && r[a] == s.drop_last()[i];
                assert(s[i] == s.drop_last()[i]);
                if is_returned(s.last(), now) {
                    assert(returned_of(s, now)[a] == r[a]);
                }
            } else {
                assert(returned_of(s, now)[a] == s[s.len() - 1]);
            }
        }
    }
}

/// Slots that never overlap stay so when those not worth serving are left
/// out.
proof fn lemma_returned_tiles(s: Seq<Slot>, now: int)
    requires
        forall|i: int, j: int| 0 <= i < j < s.len() ==> (#[trigger] s[i]).start + s[i].dur <= (#[trigger] s[j]).start,
    ensures
        forall|a: int, b: int|
            0 <= a < b < returned_of(s, now).len() ==> (#[trigger] returned_of(s, now)[a]).start
                + returned_of(s, now)[a].dur <= (#[trigger] returned_of(s, now)[b]).start,
    decreases s.len(),
{
    if s.len() > 0 {
        let p = s.drop_last();
        let r = returned_of(p, now);
        assert forall|i: int, j: int| 0 <= i < j < p.len() implies (#[trigger] p[i]).start + p[i].dur
            <= (#[trigger] p[j]).start by {
            assert(p[i] == s[i] && p[j] == s[j]);
        }
        lemma_returned_tiles(p, now);
        lemma_returned_in(p, now);
        if is_returned(s.last(), now) {
            let all = returned_of(s, now);
            assert(all == r.push(s.last()));
            assert forall|a: int, b: int| 0 <= a < b < all.len() implies (#[trigger] all[a]).start
                + all[a].dur <= (#[trigger] all[b]).start by {
                assert(all[a] == r[a]);
                if b < r.len() {
                    assert(all[b] == r[b]);
                } else {
                    let i = choose|i: int| 0 <= i < p.len() && #[trigger] r[a] == p[i];
                    assert(p[i] == s[i]);
                    assert(all[b] == s[s.len() - 1]);
                }
            }
        }
    }
}

/// Where the clips of every weekday fill a day a whole number of times, the
/// clips of a schedule follow one another without overlapping: each starts
/// no earlier than the previous one finishes (right when it finishes, on the
/// same day).
pub proof fn lemma_schedule_tiles(pl: Playlist, now: int, set: MediaSet, new_pl: Playlist)
    requires
        pl.wf(),
        days_fit(pl),
        scheduled(pl, now, set, new_pl),
    ensures
        set.clip_times@.len() == set.durations@.len(),
        forall|i: int|
            0 <= i < set.clip_times@.len() - 1 ==> (#[trigger] set.clip_times@[i]).0 + set.durations@[i].0
                <= set.clip_times@[i + 1].0,
{
    if mutual_list(pl.clips@).len() > 0 {
        let from = start_of(pl, now).2;
        let d0 = day_of(from, pl.tz.offset());
        let t = timeline(pl, d0, horizon(pl, now));
        let out = schedule_slots(pl, now);
        lemma_timeline_tiles(pl, d0, horizon(pl, now));
        lemma_timeline_order(pl, d0, horizon(pl, now));
        lemma_returned_tiles(t, now);
        lemma_returned_in(t, now);
        let r = returned_of(t, now);
        assert forall|i: int| 0 <= i < set.clip_times@.len() - 1 implies (#[trigger] set.clip_times@[
            i
        ]).0 + set.durations@[i].0 <= set.clip_times@[i + 1].0 by {
            assert(out[i] == r[i] && out[i + 1] == r[i + 1]);
            let k = choose|k: int| 0 <= k < t.len() && #[trigger] r[i] == t[k];
            assert(t[k].dur > 0 && t[k].dur <= 86400);
            assert(set.durations@[i] == MillisDuration((out[i].dur * 1000) as u128));
            assert(set.durations@[i + 1] == MillisDuration((out[i + 1].dur * 1000) as u128));
            assert(-8 * TIME_BOUND < out[i].start < 8 * TIME_BOUND);
            assert(-8 * TIME_BOUND < out[i + 1].start < 8 * TIME_BOUND);
            assert(out[i].start + out[i].dur <= out[i + 1].start);
        }
    }
}

/// Whether the media clip reads the source file from its locally cached
/// copy when the source has one, and from its upstream URL otherwise.
pub open spec fn reads_cached_first(mc: MappingClip, src: Src) -> bool {
    match src.url.local {
        Some(l) => mc.clip_type matches ClipType::Source(sc) && sc.path@ == url_path_spec(l@),
        None => mc.clip_type matches ClipType::Source(sc) && sc.path@ == url_path_spec(
            src.url.upstream@,
        ),
    }
}

/// A schedule serves the locally cached copy of a source file wherever
/// there is one: each media clip reads the path of the source's local URL
/// when the source has been cached, and of its upstream URL otherwise.
pub proof fn lemma_schedule_serves_cached_copies(pl: Playlist, now: int, set: MediaSet, new_pl: Playlist)
    requires
        scheduled(pl, now, set, new_pl),
        mutual_list(pl.clips@).len() > 0,
    ensures
        forall|k: int, i: int|
            0 <= k < mutual_list(pl.clips@).len() && 0 <= i < schedule_slots(pl, now).len() ==> reads_cached_first(
                #[trigger] set.sequences@[k].clips@[i],
                src_of(
                    clip_at(pl, schedule_slots(pl, now)[i]).sources@,
                    mutual_list(pl.clips@)[k],
                )->Some_0,
            ),
{
    let sizes = mutual_list(pl.clips@);
    let out = schedule_slots(pl, now);
    assert forall|k: int, i: int| 0 <= k < sizes.len() && 0 <= i < out.len() implies reads_cached_first(
        #[trigger] set.sequences@[k].clips@[i],
        src_of(clip_at(pl, out[i]).sources@, sizes[k])->Some_0,
    ) by {
        let sq = set.sequences@[k];
        assert(media_clip_of(sq.clips@[i], clip_at(pl, out[i]), sizes[k]));
    }
}

/// A weekly schedule serves the locally cached copy of a source file
/// wherever there is one, as [`lemma_schedule_serves_cached_copies`] says
/// of a live schedule.
pub proof fn lemma_week_schedule_serves_cached_copies(pl: Playlist, now: int, set: MediaSet)
    requires
        week_scheduled(pl, now, set),
        mutual_list(pl.clips@).len() > 0,
    ensures
        forall|k: int, i: int|
            0 <= k < mutual_list(pl.clips@).len() && 0 <= i < week_slots(pl, now).len() ==> reads_cached_first(
                #[trigger] set.sequences@[k].clips@[i],
                src_of(clip_at(pl, week_slots(pl, now)[i]).sources@, mutual_list(pl.clips@)[k])->Some_0,
            ),
{
    let sizes = mutual_list(pl.clips@);
    let out = week_slots(pl, now);
    assert forall|k: int, i: int| 0 <= k < sizes.len() && 0 <= i < out.len() implies reads_cached_first(
        #[trigger] set.sequences@[k].clips@[i],
        src_of(clip_at(pl, out[i]).sources@, sizes[k])->Some_0,
    ) by {
        let sq = set.sequences@[k];
        assert(media_clip_of(sq.clips@[i], clip_at(pl, out[i]), sizes[k]));
    }
}

} // verus!

//! Silence filler of a PCM audio stream (`f32be` samples): while the source
//! has no data, silence is emitted near the desired samples rate, in time
//! windows of 100 milliseconds.

use vstd::prelude::*;

verus! {

/// Milliseconds that the source must stay silent before silence is
/// emitted.
pub const SILENCE_TIMEOUT_MS: u64 = 50;

/// Milliseconds of a time window of silence.
pub const WINDOW_MS: u64 = 100;

/// Bytes of one `f32be` sample.
pub const SAMPLE_BYTES: usize = 4;

/// What a silence filler does while its source has no data.
#[derive(Clone, Copy, Debug, PartialEq, Eq, Structural)]
pub enum Filling {
    /// The source data is passed through; silence is emitted only after the
    /// source stayed silent for the timeout.
    Transmitting,
    /// Silence is emitted: `samples_left` samples remain in the time window
    /// that ends at `next_reset_ms`.
    Silencing {
        /// Samples left to emit in the current window.
        samples_left: usize,
        /// End of the current window, in milliseconds.
        next_reset_ms: u64,
    },
}

/// Silence filler of a source, at the given samples rate.
#[derive(Clone, Copy, Debug)]
pub struct Filler {
    /// Samples rate to emit silence at.
    pub samples_rate: usize,
    /// What the filler does.
    pub state: Filling,
}

/// Samples that a window of silence holds.
pub open spec fn window_samples(rate: usize) -> nat {
    (rate / 10) as nat
}

/// Whether a filler is well-formed: a window holds no more samples than
/// the rate gives it.
pub open spec fn filler_wf(f: Filler) -> bool {
    match f.state {
        Filling::Transmitting => true,
        Filling::Silencing { samples_left, .. } => samples_left <= window_samples(f.samples_rate),
    }
}

/// Whether the filler `x` and the number `res` of bytes of silence are what
/// emitting at `now_ms` into a buffer of `buf_len` bytes makes of the filler
/// `o`: a new window begins once the current one has ended, and whole
/// samples are emitted, as many as the window has left and the buffer holds.
pub open spec fn emitted(o: Filler, x: Filler, now_ms: u64, buf_len: usize, res: usize) -> bool {
    &&& x.samples_rate == o.samples_rate
    &&& filler_wf(x)
    &&& res % SAMPLE_BYTES == 0
    &&& res <= buf_len
    &&& match (o.state, x.state) {
        (
            Filling::Silencing { samples_left: l0, next_reset_ms: r0 },
            Filling::Silencing { samples_left: l1, next_reset_ms: r1 },
        ) => {
            let (left, reset) = if now_ms >= r0 {
                (window_samples(o.samples_rate), now_ms + WINDOW_MS)
            } else {
                (l0 as nat, r0 as int)
            };
            let n = if left <= buf_len / 4 {
                left
            } else {
                (buf_len / 4) as nat
            };
            &&& r1 == reset
            &&& res == n * 4
            &&& l1 == left - n
        },
        _ => false,
    }
}

impl Filler {
    /// A filler passing the source through, at the given samples rate.
    pub fn new(samples_rate: usize) -> (res: Filler)
        ensures
            res.samples_rate == samples_rate,
            res.state == Filling::Transmitting,
            filler_wf(res),
    {
        Filler { samples_rate, state: Filling::Transmitting }
    }

    /// The source gave data: it is passed through.
    pub fn on_data(&mut self)
        ensures
            final(self).samples_rate == old(self).samples_rate,
            final(self).state == Filling::Transmitting,
            filler_wf(*final(self)),
    {
        self.state = Filling::Transmitting;
    }

    /// The source stayed silent for the timeout at `now_ms`: a window of
    /// silence begins.
    pub fn on_timeout(&mut self, now_ms: u64)
        requires
            now_ms <= u64::MAX - WINDOW_MS,
        ensures
            final(self).samples_rate == old(self).samples_rate,
            final(self).state == (Filling::Silencing {
                samples_left: (old(self).samples_rate / 10) as usize,
                next_reset_ms: (now_ms + WINDOW_MS) as u64,
            }),
            filler_wf(*final(self)),
    {
        self.state = Filling::Silencing {
            samples_left: self.samples_rate / 10,
            next_reset_ms: now_ms + WINDOW_MS,
        };
    }

    /// Bytes of silence to emit at `now_ms` into a buffer of `buf_len`
    /// bytes while silencing: a new window begins once the current one has
    /// ended; whole samples are emitted, as many as the window has left and
    /// the buffer holds. None means waiting for the next window.
    pub fn emit(&mut self, now_ms: u64, buf_len: usize) -> (res: usize)
        requires
            old(self).state is Silencing,
            filler_wf(*old(self)),
            now_ms <= u64::MAX - WINDOW_MS,
        ensures
            emitted(*old(self), *final(self), now_ms, buf_len, res),
    {
        let rate = self.samples_rate;
        match self.state {
            Filling::Silencing { samples_left, next_reset_ms } => {
                let (left, reset) = if now_ms >= next_reset_ms {
                    (rate / 10, now_ms + WINDOW_MS)
                } else {
                    (samples_left, next_reset_ms)
                };
                let room = buf_len / SAMPLE_BYTES;
                let n = if left <= room {
                    left
                } else {
                    room
                };
                self.state = Filling::Silencing { samples_left: left - n, next_reset_ms: reset };
                n * SAMPLE_BYTES
            },
            Filling::Transmitting => 0,
        }
    }

    /// Fills the start of `buf` with the silence to emit at `now_ms` while
    /// silencing: zero bytes (`f32be` zero samples), as many as `emit`
    /// gives; the rest of the buffer is left as it is. Returns the number of
    /// bytes filled.
    pub fn fill_silence(&mut self, now_ms: u64, buf: &mut Vec<u8>) -> (res: usize)
        requires
            old(self).state is Silencing,
            filler_wf(*old(self)),
            now_ms <= u64::MAX - WINDOW_MS,
        ensures
            emitted(*old(self), *final(self), now_ms, old(buf)@.len() as usize, res),
            final(buf)@.len() == old(buf)@.len(),
            forall|i: int| 0 <= i < res ==> #[trigger] final(buf)@[i] == 0u8,
            forall|i: int| res <= i < old(buf)@.len() ==> #[trigger] final(buf)@[i] == old(buf)@[i],
    {
        let n = self.emit(now_ms, buf.len());
        let ghost b0 = buf@;
        let mut i: usize = 0;
        while i < n
            invariant
                n <= buf@.len(),
                buf@.len() == b0.len(),
                i <= n,
                forall|j: int| 0 <= j < i ==> #[trigger] buf@[j] == 0u8,
                forall|j: int| i <= j < b0.len() ==> #[trigger] buf@[j] == b0[j],
            decreases n - i,
        {
            buf.set(i, 0);
            i = i + 1;
        }
        n
    }

    /// The source has read `bytes_read` bytes into the buffer: they are
    /// passed through as they are, and silencing stops. Returns the number
    /// of bytes to hand on: exactly those the source read.
    pub fn pass_through(&mut self, bytes_read: usize) -> (res: usize)
        ensures
            res == bytes_read,
            final(self).samples_rate == old(self).samples_rate,
            final(self).state == Filling::Transmitting,
            filler_wf(*final(self)),
    {
        self.on_data();
        bytes_read
    }
}

} // verus!

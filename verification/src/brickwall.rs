//! The lookahead limiter's memory: the delay the audio waits in, the sliding
//! maximum of the detected peaks, and the ring the gain is averaged over.
//!
//! With a lookahead of `L` frames the envelope at time `t` is the largest peak
//! detected in `t - L ..= t`, and the gain is the mean of what the last `L + 1`
//! envelopes asked for. The frame that leaves at `t` lies in every one of those
//! windows, so no gain in the mean is larger than that frame allows.
//!
//! Peaks and gains are double-precision bit patterns and samples are
//! single-precision ones; the arithmetic on them belongs to the caller.

use crate::fbits::{at_most64, mag64, not_above64, ord64, F64_INF, F64_ONE};
use std::collections::VecDeque;
use vstd::prelude::*;

verus! {

/// A fixed number of items, each handed out as many steps after it went in.
pub struct Ring<T> {
    pub items: Vec<T>,
    pub pos: usize,
}

impl<T: Copy> Ring<T> {
    pub open spec fn wf(self) -> bool {
        self.pos < self.items@.len()
    }

    /// The items, the next one out first.
    pub open spec fn view(self) -> Seq<T> {
        self.items@.skip(self.pos as int) + self.items@.take(self.pos as int)
    }

    /// A ring of `len` copies of one item.
    pub fn new(len: usize, item: T) -> (r: Self)
        requires
            len > 0,
        ensures
            r.wf(),
            r@ == Seq::new(len as nat, |i: int| item),
    {
        let mut items: Vec<T> = Vec::new();
        let mut i: usize = 0;
        while i < len
            invariant
                i <= len,
                items@ == Seq::new(i as nat, |k: int| item),
            decreases len - i,
        {
            items.push(item);
            assert(items@ =~= Seq::new((i + 1) as nat, |k: int| item));
            i += 1;
        }
        let r = Ring { items, pos: 0 };
        assert(r@ =~= Seq::new(len as nat, |k: int| item));
        r
    }

    /// Take the oldest item out and put a new one in.
    pub fn swap(&mut self, item: T) -> (r: T)
        requires
            old(self).wf(),
        ensures
            final(self).wf(),
            r == old(self)@[0],
            final(self)@ == old(self)@.skip(1).push(item),
            final(self)@.len() == old(self)@.len(),
    {
        let p: usize = self.pos;
        let r: T = self.items[p];
        self.items.set(p, item);
        let n: usize = self.items.len();
        self.pos = if p + 1 == n {
            0
        } else {
            p + 1
        };
        assert(self@ =~= old(self)@.skip(1).push(item));
        r
    }
}

/// What a ring hands out while `xs` go in.
pub open spec fn ring_out<T>(q: Seq<T>, xs: Seq<T>) -> Seq<T>
    decreases xs.len(),
{
    if xs.len() == 0 {
        Seq::empty()
    } else {
        seq![q[0]] + ring_out(q.skip(1).push(xs[0]), xs.skip(1))
    }
}

proof fn lemma_ring_out<T>(q: Seq<T>, xs: Seq<T>)
    requires
        q.len() > 0,
    ensures
        ring_out(q, xs) == (q + xs).take(xs.len() as int),
    decreases xs.len(),
{
    if xs.len() == 0 {
        assert(ring_out(q, xs) =~= (q + xs).take(0));
    } else {
        let q1 = q.skip(1).push(xs[0]);
        lemma_ring_out(q1, xs.skip(1));
        assert(q1 + xs.skip(1) =~= (q + xs).skip(1));
        assert(seq![q[0]] + (q + xs).skip(1).take(xs.len() - 1) =~= (q + xs).take(
            xs.len() as int,
        ));
    }
}

/// A ring delays: what goes in at step `i` comes out as many steps later as the
/// ring is long, and first comes what the ring held.
pub proof fn law_ring_delays<T>(q: Seq<T>, xs: Seq<T>, i: int)
    requires
        q.len() > 0,
    ensures
        ring_out(q, xs).len() == xs.len(),
        0 <= i && i + q.len() < xs.len() ==> ring_out(q, xs)[i + q.len()] == xs[i],
        0 <= i < q.len() && i < xs.len() ==> ring_out(q, xs)[i] == q[i],
{
    lemma_ring_out(q, xs);
}

// ---- the sliding maximum ---------------------------------------------------

/// A candidate for the maximum: a value and when it came.
pub type Peak = (u64, u64);

/// The candidates left once those a new value beats are dropped from the back.
pub open spec fn beaten_dropped(q: Seq<Peak>, v: u64) -> Seq<Peak>
    decreases q.len(),
{
    if q.len() > 0 && at_most64(q.last().0, v) {
        beaten_dropped(q.drop_last(), v)
    } else {
        q
    }
}

/// The candidates left once those that are too old are dropped from the front.
pub open spec fn aged_dropped(q: Seq<Peak>, oldest: int) -> Seq<Peak>
    decreases q.len(),
{
    if q.len() > 0 && q[0].1 < oldest {
        aged_dropped(q.skip(1), oldest)
    } else {
        q
    }
}

/// The first step of the window that ends at step `now`.
pub open spec fn window_start(now: int, look: int) -> int {
    if now < look {
        0
    } else {
        now - look
    }
}

/// The candidates after the value `v` comes at step `now`.
pub open spec fn stepped(q: Seq<Peak>, v: u64, now: u64, look: u64) -> Seq<Peak> {
    aged_dropped(beaten_dropped(q, v).push((v, now)), window_start(now as int, look as int))
}

/// Whether `v` is the largest of `h[from ..= to]`, and one of them.
pub open spec fn is_peak(v: u64, h: Seq<u64>, from: int, to: int) -> bool {
    &&& exists|i: int| from <= i <= to && #[trigger] h[i] == v
    &&& forall|i: int| from <= i <= to ==> ord64(#[trigger] h[i]) <= ord64(v)
}

/// Whether a history holds numbers only.
pub open spec fn clean(h: Seq<u64>) -> bool {
    forall|i: int| 0 <= i < h.len() ==> mag64(#[trigger] h[i]) <= F64_INF
}

/// Whether some candidate is as late and as large as step `k`.
pub open spec fn covers(q: Seq<Peak>, h: Seq<u64>, k: int) -> bool {
    exists|i: int| 0 <= i < q.len() && (#[trigger] q[i]).1 >= k && ord64(q[i].0) >= ord64(h[k])
}

/// Whether the candidates describe the window of a history from `oldest` on:
/// their steps grow, their values fall, and every step is covered.
pub open spec fn tracks(q: Seq<Peak>, h: Seq<u64>, oldest: int) -> bool {
    &&& q.len() > 0
    &&& forall|i: int|
        0 <= i < q.len() ==> oldest <= (#[trigger] q[i]).1 < h.len() && q[i].0 == h[q[i].1 as int]
    &&& forall|i: int, j: int|
        0 <= i < j < q.len() ==> (#[trigger] q[i]).1 < (#[trigger] q[j]).1 && ord64(q[i].0)
            > ord64(q[j].0)
    &&& forall|k: int| oldest <= k < h.len() ==> #[trigger] covers(q, h, k)
}

proof fn lemma_beaten(q: Seq<Peak>, v: u64)
    ensures
        ({
            let r = beaten_dropped(q, v);
            &&& r.len() <= q.len()
            &&& r == q.take(r.len() as int)
            &&& forall|i: int| r.len() <= i < q.len() ==> at_most64((#[trigger] q[i]).0, v)
            &&& r.len() > 0 ==> !at_most64(r.last().0, v)
        }),
    decreases q.len(),
{
    if q.len() > 0 && at_most64(q.last().0, v) {
        lemma_beaten(q.drop_last(), v);
        let r = beaten_dropped(q.drop_last(), v);
        assert(q.drop_last().take(r.len() as int) =~= q.take(r.len() as int));
        assert forall|i: int| r.len() <= i < q.len() implies at_most64((#[trigger] q[i]).0, v) by {
            if i < q.len() - 1 {
                assert(q.drop_last()[i] == q[i]);
            }
        }
    } else {
        assert(q.take(q.len() as int) =~= q);
    }
}

proof fn lemma_aged(q: Seq<Peak>, oldest: int)
    ensures
        ({
            let r = aged_dropped(q, oldest);
            let m = q.len() - r.len();
            &&& 0 <= m
            &&& r == q.skip(m)
            &&& forall|i: int| 0 <= i < m ==> (#[trigger] q[i]).1 < oldest
            &&& r.len() > 0 ==> r[0].1 >= oldest
        }),
    decreases q.len(),
{
    if q.len() > 0 && q[0].1 < oldest {
        lemma_aged(q.skip(1), oldest);
        let r = aged_dropped(q.skip(1), oldest);
        let m = q.len() - r.len();
        assert(q.skip(1).skip(m - 1) =~= q.skip(m));
        assert forall|i: int| 0 <= i < m implies (#[trigger] q[i]).1 < oldest by {
            if i > 0 {
                assert(q.skip(1)[i - 1] == q[i]);
            }
        }
    } else {
        assert(q.skip(0) =~= q);
    }
}

proof fn lemma_step_keeps_tracking(q: Seq<Peak>, h: Seq<u64>, v: u64, now: u64, look: u64)
    requires
        h.len() == now,
        clean(h.push(v)),
        now == 0 ==> q.len() == 0,
        now > 0 ==> tracks(q, h, window_start(now - 1, look as int)),
    ensures
        tracks(stepped(q, v, now, look), h.push(v), window_start(now as int, look as int)),
{
    let h1 = h.push(v);
    let oldest = window_start(now as int, look as int);
    let r = beaten_dropped(q, v);
    let p = r.push((v, now));
    let s = aged_dropped(p, oldest);
    lemma_beaten(q, v);
    lemma_aged(p, oldest);
    let m = p.len() - s.len();
    assert(h1[now as int] == v);
    assert(p.last().1 == now);
    assert(s.len() > 0) by {
        if s.len() == 0 {
            assert(p[p.len() - 1].1 < oldest);
        }
    }
    assert forall|i: int| 0 <= i < r.len() implies (#[trigger] r[i]) == q[i] && q[i].1 < h.len()
        && q[i].0 == h[q[i].1 as int] && ord64(q[i].0) > ord64(v) by {
        assert(q.take(r.len() as int)[i] == q[i]);
        let e = r.len() - 1;
        assert(q.take(r.len() as int)[e] == q[e]);
        assert(mag64(h1[q[e].1 as int]) <= F64_INF);
        assert(mag64(h1[now as int]) <= F64_INF);
        assert(ord64(q[e].0) > ord64(v));
    }
    assert forall|i: int, j: int| 0 <= i < j < p.len() implies (#[trigger] p[i]).1 < (
    #[trigger] p[j]).1 && ord64(p[i].0) > ord64(p[j].0) by {
        assert(p[i] == r[i]);
        if j < r.len() {
            assert(p[j] == r[j]);
        }
    }
    assert forall|i: int| 0 <= i < s.len() implies oldest <= (#[trigger] s[i]).1 < h1.len()
        && s[i].0 == h1[s[i].1 as int] by {
        assert(s[i] == p[i + m]);
        assert(s[0] == p[m]);
        if i + m < r.len() {
            assert(p[i + m] == r[i + m]);
        }
    }
    assert forall|i: int, j: int| 0 <= i < j < s.len() implies (#[trigger] s[i]).1 < (
    #[trigger] s[j]).1 && ord64(s[i].0) > ord64(s[j].0) by {
        assert(s[i] == p[i + m] && s[j] == p[j + m]);
    }
    assert forall|k: int| oldest <= k < h1.len() implies #[trigger] covers(s, h1, k) by {
        let last = s.len() - 1;
        assert(s[last] == p[p.len() - 1]);
        assert(s[last] == (v, now));
        if k < now {
            assert(h1[k] == h[k]);
            assert(covers(q, h, k));
            let i = choose|i: int|
                0 <= i < q.len() && (#[trigger] q[i]).1 >= k && ord64(q[i].0) >= ord64(h[k]);
            if i < r.len() {
                assert(r[i] == q[i]);
                assert(p[i] == q[i]);
                assert(i >= m);
                assert(s[i - m] == p[i]);
            } else {
                assert(at_most64(q[i].0, v));
                assert(s[last].1 >= k && ord64(s[last].0) >= ord64(h1[k]));
            }
        } else {
            assert(s[last].1 >= k && ord64(s[last].0) >= ord64(h1[k]));
        }
    }
}

proof fn lemma_front_is_peak(q: Seq<Peak>, h: Seq<u64>, oldest: int)
    requires
        tracks(q, h, oldest),
    ensures
        is_peak(q[0].0, h, oldest, h.len() - 1),
{
    assert(h[q[0].1 as int] == q[0].0);
    assert forall|k: int| oldest <= k <= h.len() - 1 implies ord64(#[trigger] h[k]) <= ord64(
        q[0].0,
    ) by {
        assert(covers(q, h, k));
        let i = choose|i: int|
            0 <= i < q.len() && (#[trigger] q[i]).1 >= k && ord64(q[i].0) >= ord64(h[k]);
        if i > 0 {
            assert(ord64(q[0].0) > ord64(q[i].0));
        }
    }
}

/// The largest of the last `look + 1` values, in amortised constant time.
pub struct PeakWindow {
    pub look: u64,
    /// How many values have come.
    pub count: u64,
    /// Candidates for the maximum, the oldest in front.
    pub queue: VecDeque<Peak>,
    /// Every value that has come.
    pub history: Ghost<Seq<u64>>,
}

impl PeakWindow {
    pub open spec fn wf(self) -> bool {
        &&& self.history@.len() == self.count
        &&& self.count == 0 ==> self.queue@.len() == 0
        &&& self.count > 0 && clean(self.history@) ==> tracks(
            self.queue@,
            self.history@,
            window_start(self.count - 1, self.look as int),
        )
    }

    pub fn new(look: u64) -> (r: Self)
        ensures
            r.wf(),
            r.look == look,
            r.count == 0,
            r.queue@ == Seq::<Peak>::empty(),
            r.history@ == Seq::<u64>::empty(),
    {
        PeakWindow { look, count: 0, queue: VecDeque::new(), history: Ghost(Seq::empty()) }
    }

    /// Take the next value in, and return the largest of the window that ends
    /// with it. Where a NaN has come, the result is the front of the queue the
    /// comparisons leave.
    pub fn push(&mut self, v: u64) -> (r: u64)
        requires
            old(self).wf(),
            old(self).count < u64::MAX,
        ensures
            final(self).wf(),
            final(self).look == old(self).look,
            final(self).count == old(self).count + 1,
            final(self).history@ == old(self).history@.push(v),
            final(self).queue@ == stepped(old(self).queue@, v, old(self).count, old(self).look),
            r == final(self).queue@[0].0,
            clean(final(self).history@) ==> is_peak(
                r,
                final(self).history@,
                window_start(old(self).count as int, old(self).look as int),
                old(self).count as int,
            ),
    {
        let now: u64 = self.count;
        let ghost q0 = self.queue@;
        let ghost h0 = self.history@;
        let mut go: bool = true;
        while go
            invariant
                beaten_dropped(self.queue@, v) == beaten_dropped(q0, v),
                !go ==> self.queue@ == beaten_dropped(q0, v),
                self.look == old(self).look,
                self.count == old(self).count,
                self.history == old(self).history,
            decreases
                self.queue@.len(),
                if go {
                    1int
                } else {
                    0
                },
        {
            let n: usize = self.queue.len();
            if n > 0 && not_above64(self.queue[n - 1].0, v) {
                assert(self.queue@.drop_last() =~= self.queue@.subrange(
                    0,
                    self.queue@.len() - 1,
                ));
                let _ = self.queue.pop_back();
            } else {
                go = false;
            }
        }
        self.queue.push_back((v, now));
        let oldest: u64 = if now < self.look {
            0
        } else {
            now - self.look
        };
        let ghost p = self.queue@;
        proof {
            lemma_aged(p, oldest as int);
        }
        let mut more: bool = true;
        while more
            invariant
                aged_dropped(self.queue@, oldest as int) == aged_dropped(p, oldest as int),
                !more ==> self.queue@ == aged_dropped(p, oldest as int),
                self.look == old(self).look,
                self.count == old(self).count,
                self.history == old(self).history,
            decreases
                self.queue@.len(),
                if more {
                    1int
                } else {
                    0
                },
        {
            if self.queue.len() > 0 && self.queue[0].1 < oldest {
                assert(self.queue@.skip(1) =~= self.queue@.subrange(
                    1,
                    self.queue@.len() as int,
                ));
                let _ = self.queue.pop_front();
            } else {
                more = false;
            }
        }
        assert(self.queue@ == stepped(q0, v, now, self.look));
        assert(self.queue@.len() > 0) by {
            if self.queue@.len() == 0 {
                assert(p[p.len() - 1].1 < oldest);
            }
        }
        self.count = now + 1;
        self.history = Ghost(self.history@.push(v));
        proof {
            if clean(self.history@) {
                assert(clean(h0)) by {
                    assert forall|i: int| 0 <= i < h0.len() implies mag64(#[trigger] h0[i])
                        <= F64_INF by {
                        assert(self.history@[i] == h0[i]);
                    }
                }
                lemma_step_keeps_tracking(q0, h0, v, now, self.look);
                lemma_front_is_peak(self.queue@, self.history@, oldest as int);
            }
        }
        self.queue[0].0
    }
}

// ---- the limiter -----------------------------------------------------------

/// Frames by which what the true-peak detector reports lags its input.
pub const DETECTOR_DELAY: usize = 3;

/// The detector's own delay.
pub open spec fn group_delay(true_peak: bool) -> int {
    if true_peak {
        DETECTOR_DELAY as int
    } else {
        0
    }
}

/// The memory of a lookahead limiter.
pub struct Brickwall {
    pub look: usize,
    /// Stereo frames waiting to be emitted.
    pub delay: Ring<(u32, u32)>,
    pub peaks: PeakWindow,
    /// The gains the last `look + 1` envelopes asked for.
    pub gains: Ring<u64>,
    /// Largest peak detected so far.
    pub peak_in: u64,
    /// Smallest gain that had to be applied so far.
    pub min_gain: u64,
}

/// The larger of a peak and what has been seen so far.
pub open spec fn peak_seen(so_far: u64, v: u64) -> u64 {
    if mag64(v) <= F64_INF && mag64(so_far) <= F64_INF && ord64(v) > ord64(so_far) {
        v
    } else {
        so_far
    }
}

/// The smaller of a gain and what has been applied so far.
pub open spec fn gain_seen(so_far: u64, v: u64) -> u64 {
    if mag64(v) <= F64_INF && mag64(so_far) <= F64_INF && ord64(v) < ord64(so_far) {
        v
    } else {
        so_far
    }
}

/// The smallest gain seen over a run of them.
pub open spec fn gain_seen_over(so_far: u64, gains: Seq<u64>) -> u64
    decreases gains.len(),
{
    if gains.len() == 0 {
        so_far
    } else {
        gain_seen(gain_seen_over(so_far, gains.drop_last()), gains.last())
    }
}

impl Brickwall {
    pub open spec fn wf(self) -> bool {
        &&& self.delay.wf()
        &&& self.gains.wf()
        &&& self.peaks.wf()
        &&& self.peaks.look == self.look
        &&& self.gains@.len() == self.look + 1
        &&& self.delay@.len() >= self.look
    }

    /// Nothing waiting, every gain at one. The audio waits for the lookahead
    /// and for the detector's own delay.
    pub fn new(look: usize, true_peak: bool) -> (r: Self)
        requires
            1 <= look <= 0x7fff_ffff,
        ensures
            r.wf(),
            r.look == look,
            r.delay@ == Seq::new((look + group_delay(true_peak)) as nat, |i: int| (0u32, 0u32)),
            r.gains@ == Seq::new((look + 1) as nat, |i: int| F64_ONE),
            r.peaks.count == 0,
            r.peaks.history@ == Seq::<u64>::empty(),
            r.peak_in == 0,
            r.min_gain == F64_ONE,
    {
        let group: usize = if true_peak {
            DETECTOR_DELAY
        } else {
            0
        };
        Brickwall {
            look,
            delay: Ring::new(look + group, (0u32, 0u32)),
            peaks: PeakWindow::new(look as u64),
            gains: Ring::new(look + 1, F64_ONE),
            peak_in: 0,
            min_gain: F64_ONE,
        }
    }

    /// Frames of latency this adds to the render.
    pub fn latency(&self) -> (r: usize)
        requires
            self.wf(),
        ensures
            r == self.delay@.len(),
    {
        let n: usize = self.delay.items.len();
        assert(self.delay@.len() == n);
        n
    }

    /// Take a frame and its detected peak in. The result is the frame that
    /// leaves and the envelope it leaves under.
    pub fn enter(&mut self, frame: (u32, u32), peak: u64) -> (r: ((u32, u32), u64))
        requires
            old(self).wf(),
            old(self).peaks.count < u64::MAX,
        ensures
            final(self).wf(),
            final(self).look == old(self).look,
            final(self).gains == old(self).gains,
            final(self).min_gain == old(self).min_gain,
            r.0 == old(self).delay@[0],
            final(self).delay@ == old(self).delay@.skip(1).push(frame),
            final(self).peaks.history@ == old(self).peaks.history@.push(peak),
            final(self).peaks.count == old(self).peaks.count + 1,
            final(self).peaks.queue@ == stepped(
                old(self).peaks.queue@,
                peak,
                old(self).peaks.count,
                old(self).peaks.look,
            ),
            r.1 == final(self).peaks.queue@[0].0,
            clean(final(self).peaks.history@) ==> is_peak(
                r.1,
                final(self).peaks.history@,
                window_start(old(self).peaks.count as int, old(self).look as int),
                old(self).peaks.count as int,
            ),
            final(self).peak_in == peak_seen(old(self).peak_in, peak),
    {
        let out: (u32, u32) = self.delay.swap(frame);
        if !not_above64(peak, self.peak_in) && not_above64(self.peak_in, peak) {
            self.peak_in = peak;
        }
        let env: u64 = self.peaks.push(peak);
        (out, env)
    }

    /// Put the gain an envelope asks for into the average, and return the one
    /// that drops out of it.
    pub fn average(&mut self, gain: u64) -> (r: u64)
        requires
            old(self).wf(),
        ensures
            final(self).wf(),
            final(self).look == old(self).look,
            final(self).delay == old(self).delay,
            final(self).peaks == old(self).peaks,
            final(self).peak_in == old(self).peak_in,
            final(self).min_gain == old(self).min_gain,
            r == old(self).gains@[0],
            final(self).gains@ == old(self).gains@.skip(1).push(gain),
    {
        self.gains.swap(gain)
    }

    /// Note the gain a frame left with.
    pub fn applied(&mut self, gain: u64)
        requires
            old(self).wf(),
        ensures
            final(self).wf(),
            final(self).look == old(self).look,
            final(self).delay == old(self).delay,
            final(self).peaks == old(self).peaks,
            final(self).gains == old(self).gains,
            final(self).peak_in == old(self).peak_in,
            final(self).min_gain == gain_seen(old(self).min_gain, gain),
    {
        if not_above64(gain, self.min_gain) && !not_above64(self.min_gain, gain) {
            self.min_gain = gain;
        }
    }
}

/// What is kept as the smallest gain is the start or one of the gains, and no gain
/// is smaller.
pub proof fn law_min_gain_is_the_smallest(start: u64, gains: Seq<u64>)
    requires
        mag64(start) <= F64_INF,
        clean(gains),
    ensures
        mag64(gain_seen_over(start, gains)) <= F64_INF,
        gain_seen_over(start, gains) == start || gains.contains(gain_seen_over(start, gains)),
        ord64(gain_seen_over(start, gains)) <= ord64(start),
        forall|i: int|
            0 <= i < gains.len() ==> ord64(gain_seen_over(start, gains)) <= ord64(
                #[trigger] gains[i],
            ),
    decreases gains.len(),
{
    if gains.len() > 0 {
        let front = gains.drop_last();
        assert forall|i: int| 0 <= i < front.len() implies mag64(#[trigger] front[i]) <= F64_INF by {
            assert(front[i] == gains[i]);
        }
        law_min_gain_is_the_smallest(start, front);
        let g = gain_seen_over(start, gains);
        assert(gains[gains.len() - 1] == gains.last());
        if g != gains.last() && front.contains(g) {
            let i = front.index_of(g);
            assert(gains[i] == g);
        }
        assert forall|i: int| 0 <= i < gains.len() implies ord64(g) <= ord64(#[trigger] gains[i]) by {
            if i < front.len() {
                assert(front[i] == gains[i]);
            }
        }
    }
}

/// The frame that leaves is in every window of the average. For each step `s`
/// of the last `look + 1`, the envelope at `s` is at least the peak detected at
/// `now - look`, which is the step whose frame leaves at `now`.
pub proof fn law_every_window_holds_the_frame_that_leaves(
    h: Seq<u64>,
    look: int,
    now: int,
    s: int,
    env: u64,
)
    requires
        0 <= look <= now < h.len(),
        now - look <= s <= now,
        is_peak(env, h, window_start(s, look), s),
    ensures
        ord64(env) >= ord64(h[now - look]),
{
    assert(window_start(s, look) <= now - look <= s);
    assert(ord64(h[now - look]) <= ord64(env));
}

/// The sum of a sequence of whole numbers.
pub open spec fn total(xs: Seq<int>) -> int
    decreases xs.len(),
{
    if xs.len() == 0 {
        0
    } else {
        total(xs.drop_last()) + xs.last()
    }
}

/// A mean is no larger than the largest it is taken over: where each gain is at
/// most `bound`, their sum is at most as many times `bound`.
pub proof fn law_mean_keeps_a_bound(gains: Seq<int>, bound: int)
    requires
        forall|i: int| 0 <= i < gains.len() ==> #[trigger] gains[i] <= bound,
    ensures
        total(gains) <= gains.len() * bound,
    decreases gains.len(),
{
    if gains.len() > 0 {
        let front = gains.drop_last();
        assert forall|i: int| 0 <= i < front.len() implies #[trigger] front[i] <= bound by {
            assert(front[i] == gains[i]);
        }
        law_mean_keeps_a_bound(front, bound);
        assert(gains.len() * bound == front.len() * bound + bound) by (nonlinear_arith)
            requires
                gains.len() == front.len() + 1,
        ;
    } else {
        assert(gains.len() * bound == 0) by (nonlinear_arith)
            requires
                gains.len() == 0,
        ;
    }
}

/// The ceiling holds, in exact arithmetic. Every gain of the average keeps its
/// own envelope under the ceiling, and every envelope is at least the peak `d`
/// of the frame that leaves, so the mean gain keeps that frame under it too.
/// Gains are in units of `one`; the mean is the total over their number.
pub proof fn law_ceiling_holds(gains: Seq<int>, envs: Seq<int>, d: int, ceiling: int, one: int)
    requires
        gains.len() == envs.len(),
        0 <= d,
        forall|i: int|
            0 <= i < gains.len() ==> 0 <= #[trigger] gains[i] && d <= envs[i] && gains[i] * envs[i]
                <= ceiling * one,
    ensures
        total(gains) * d <= gains.len() * (ceiling * one),
    decreases gains.len(),
{
    if gains.len() > 0 {
        let g = gains.drop_last();
        let e = envs.drop_last();
        assert forall|i: int| 0 <= i < g.len() implies 0 <= #[trigger] g[i] && d <= e[i] && g[i]
            * e[i] <= ceiling * one by {
            assert(g[i] == gains[i] && e[i] == envs[i]);
        }
        law_ceiling_holds(g, e, d, ceiling, one);
        let (x, y, c) = (gains.last(), envs.last(), ceiling * one);
        assert(gains[gains.len() - 1] == x);
        assert(x * d <= c) by (nonlinear_arith)
            requires
                0 <= x,
                0 <= d <= y,
                x * y <= c,
        ;
        assert(total(gains) * d == total(g) * d + x * d) by (nonlinear_arith)
            requires
                total(gains) == total(g) + x,
        ;
        assert(gains.len() * c == g.len() * c + c) by (nonlinear_arith)
            requires
                gains.len() == g.len() + 1,
        ;
    } else {
        assert(total(gains) * d == 0) by (nonlinear_arith)
            requires
                total(gains) == 0,
        ;
        assert(gains.len() * (ceiling * one) == 0) by (nonlinear_arith)
            requires
                gains.len() == 0,
        ;
    }
}

} // verus!

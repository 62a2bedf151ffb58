//! Frames between capture and encoder: the clock they are stamped by, the
//! pacer that thins them to the frame rate, and the bounded queue.

use std::collections::VecDeque;
use vstd::prelude::*;

verus! {

// ---------------------------------------------------------------------------
// The clock
// ---------------------------------------------------------------------------

/// `a` divided by a positive `b`, rounded towards zero.
pub open spec fn trunc_div(a: int, b: int) -> int {
    if a >= 0 {
        a / b
    } else {
        -((-a) / b)
    }
}

/// Performance-counter ticks at `freq` ticks a second, in units of 100 ns.
pub fn ticks_to_100ns(ticks: i64, freq: i64) -> (t: i64)
    requires
        freq > 0,
    ensures
        t == trunc_div(ticks * 10_000_000, freq as int) as i64,
{
    let scaled: i128 = ticks as i128 * 10_000_000;
    let f: i128 = freq as i128;
    let q: i128 = if scaled >= 0 {
        scaled / f
    } else {
        -((-scaled) / f)
    };
    q as i64
}

/// The time of the performance counter in units of 100 ns; zero where the
/// counter has no frequency.
pub fn qpc_now(ticks: i64, freq: i64) -> (t: i64)
    ensures
        t == if freq > 0 {
            trunc_div(ticks * 10_000_000, freq as int) as i64
        } else {
            0
        },
{
    if freq > 0 {
        ticks_to_100ns(ticks, freq)
    } else {
        0
    }
}

// ---------------------------------------------------------------------------
// The queue
// ---------------------------------------------------------------------------

/// How many frames wait for the encoder at most.
pub const DEPTH: usize = 4;

/// A frame and its presentation time.
pub struct QFrame<T> {
    pub tex: T,
    pub pts: i64,
}

/// `s` with `f` behind it, without the oldest frame if the queue was full.
pub open spec fn queued<T>(s: Seq<QFrame<T>>, f: QFrame<T>) -> Seq<QFrame<T>> {
    if s.len() >= DEPTH {
        s.skip(1).push(f)
    } else {
        s.push(f)
    }
}

/// The frames that wait for the encoder, the oldest first.
pub struct FrameQueue<T> {
    q: VecDeque<QFrame<T>>,
}

impl<T> View for FrameQueue<T> {
    type V = Seq<QFrame<T>>;

    closed spec fn view(&self) -> Seq<QFrame<T>> {
        self.q@
    }
}

impl<T> FrameQueue<T> {
    /// An empty queue.
    pub fn new() -> (q: FrameQueue<T>)
        ensures
            q@ == Seq::<QFrame<T>>::empty(),
    {
        FrameQueue { q: VecDeque::new() }
    }

    /// Queues a frame. When the encoder is behind, the newest frames win.
    pub fn push(&mut self, f: QFrame<T>)
        ensures
            final(self)@ == queued(old(self)@, f),
            old(self)@.len() <= DEPTH ==> final(self)@.len() <= DEPTH,
    {
        if self.q.len() >= DEPTH {
            let oldest = self.q.pop_front();
            assert(self.q@ =~= old(self).q@.skip(1));
        }
        self.q.push_back(f);
    }

    /// Takes the oldest frame.
    pub fn pop(&mut self) -> (r: Option<QFrame<T>>)
        ensures
            match r {
                Some(f) => old(self)@.len() > 0 && f == old(self)@[0] && final(self)@
                    == old(self)@.skip(1),
                None => old(self)@.len() == 0 && final(self)@ == old(self)@,
            },
    {
        let r = self.q.pop_front();
        proof {
            if r is Some {
                assert(self.q@ =~= old(self).q@.skip(1));
            }
        }
        r
    }

    /// Whether no frame waits.
    pub fn is_empty(&self) -> (b: bool)
        ensures
            b == (self@.len() == 0),
    {
        self.q.len() == 0
    }
}

// ---------------------------------------------------------------------------
// The pacer
// ---------------------------------------------------------------------------

/// A pacer's frame distance, and when it takes the next frame (zero before the
/// first one).
pub struct PacerModel {
    pub interval: int,
    pub next_due: int,
}

impl PacerModel {
    /// The time that a frame arriving at `pts` is given, or `None` to drop it. A
    /// frame that is due goes on the grid; one that comes more than a distance
    /// late starts the grid anew.
    pub open spec fn accepted(self, pts: int) -> Option<int> {
        if pts < self.next_due {
            None
        } else if self.next_due == 0 || pts > self.next_due + self.interval {
            Some(pts)
        } else {
            Some(self.next_due)
        }
    }

    /// The times that a frame arriving at `pts` brings can be counted in 64 bits.
    pub open spec fn fits(self, pts: int) -> bool {
        &&& self.interval >= 0
        &&& pts >= self.next_due ==> pts + self.interval <= i64::MAX
    }

    /// The pacer once a frame has arrived at `pts`.
    pub open spec fn after(self, pts: int) -> PacerModel {
        match self.accepted(pts) {
            None => self,
            Some(t) => PacerModel { next_due: t + self.interval, ..self },
        }
    }

    /// The times of the frames that are taken when frames arrive at `arrivals`.
    pub open spec fn run(self, arrivals: Seq<int>) -> Seq<int>
        decreases arrivals.len(),
    {
        if arrivals.len() == 0 {
            Seq::empty()
        } else {
            let rest = self.after(arrivals[0]).run(arrivals.skip(1));
            match self.accepted(arrivals[0]) {
                None => rest,
                Some(t) => seq![t] + rest,
            }
        }
    }
}

/// The distance between frames at `fps` frames a second.
pub open spec fn frame_interval(fps: u32) -> int {
    if fps == 0 {
        10_000_000
    } else {
        10_000_000int / fps as int
    }
}

/// Takes frames at most every interval. For one thread.
pub struct Pacer {
    interval: i64,
    next_due: i64,
}

impl View for Pacer {
    type V = PacerModel;

    closed spec fn view(&self) -> PacerModel {
        PacerModel { interval: self.interval as int, next_due: self.next_due as int }
    }
}

impl Pacer {
    /// A pacer for `fps` frames a second.
    pub fn new(fps: u32) -> (p: Pacer)
        ensures
            p@ == (PacerModel { interval: frame_interval(fps), next_due: 0 }),
            0 <= p@.interval <= 10_000_000,
            p@.next_due == 0,
            fps > 0 ==> p@.interval * fps <= 10_000_000 < (p@.interval + 1) * fps,
    {
        proof {
            law_distances_fill_a_second(fps);
        }
        let n: i64 = if fps == 0 {
            1
        } else {
            fps as i64
        };
        proof {
            vstd::arithmetic::div_mod::lemma_div_is_ordered_by_denominator(10_000_000, 1, n as int);
            vstd::arithmetic::div_mod::lemma_div_pos_is_pos(10_000_000, n as int);
        }
        Pacer { interval: 10_000_000 / n, next_due: 0 }
    }

    /// Whether a frame that arrives at `pts` can be taken in: the time after it can
    /// be counted in 64 bits.
    pub fn takes(&self, pts: i64) -> (b: bool)
        requires
            self@.interval >= 0,
        ensures
            b == self@.fits(pts as int),
    {
        pts < self.next_due || pts <= i64::MAX - self.interval
    }

    /// The time on the grid for a frame that is taken, `None` for one to drop.
    pub fn accept(&mut self, pts: i64) -> (r: Option<i64>)
        requires
            old(self)@.fits(pts as int),
        ensures
            match r {
                Some(t) => old(self)@.accepted(pts as int) == Some(t as int),
                None => old(self)@.accepted(pts as int) is None,
            },
            final(self)@ == old(self)@.after(pts as int),
            r is Some <==> pts >= old(self)@.next_due,
            r matches Some(t) ==> t == pts || t == old(self)@.next_due,
            r matches Some(t) ==> final(self)@.next_due == t + final(self)@.interval,
            r is None ==> final(self)@ == old(self)@,
    {
        if pts < self.next_due {
            return None;
        }
        if self.next_due == 0 || pts > self.next_due + self.interval {
            self.next_due = pts + self.interval;
            Some(pts)
        } else {
            let out: i64 = self.next_due;
            self.next_due = self.next_due + self.interval;
            Some(out)
        }
    }
}

// ---------------------------------------------------------------------------
// Laws
// ---------------------------------------------------------------------------

/// Law: a frame that is taken gets a time that is due, at its arrival or at most
/// a distance before it, and the next one is due a distance later.
pub proof fn law_accepted_time(p: PacerModel, pts: int)
    requires
        p.interval > 0,
        p.accepted(pts) is Some,
    ensures
        p.accepted(pts)->0 >= p.next_due,
        pts - p.interval <= p.accepted(pts)->0 <= pts,
        p.after(pts).next_due == p.accepted(pts)->0 + p.interval,
{
}

/// Law: the times that a pacer hands out are at least its distance apart, so no
/// more than the frame rate, and they rise.
pub proof fn law_run_is_paced(p: PacerModel, arrivals: Seq<int>)
    requires
        p.interval > 0,
    ensures
        forall|i: int| 0 <= i < p.run(arrivals).len() ==> #[trigger] p.run(arrivals)[i] >= p.next_due,
        forall|i: int, j: int|
            0 <= i < j < p.run(arrivals).len() ==> #[trigger] p.run(arrivals)[j]
                - #[trigger] p.run(arrivals)[i] >= (j - i) * p.interval,
    decreases arrivals.len(),
{
    if arrivals.len() > 0 {
        let q = p.after(arrivals[0]);
        let rest = q.run(arrivals.skip(1));
        law_run_is_paced(q, arrivals.skip(1));
        match p.accepted(arrivals[0]) {
            None => {},
            Some(t) => {
                let all = p.run(arrivals);
                assert(all =~= seq![t] + rest);
                assert forall|i: int, j: int| 0 <= i < j < all.len() implies #[trigger] all[j]
                    - #[trigger] all[i] >= (j - i) * p.interval by {
                    assert(all[j] == rest[j - 1]);
                    if i > 0 {
                        assert(all[i] == rest[i - 1]);
                        assert((j - 1) - (i - 1) == j - i);
                    } else {
                        assert(rest[j - 1] - rest[0] >= (j - 1 - 0) * p.interval);
                        assert(rest[0] >= t + p.interval);
                        assert((j - 1) * p.interval + p.interval == j * p.interval)
                            by (nonlinear_arith);
                    }
                }
            },
        }
    }
}

/// Law: frames that follow each other closely enough are exactly a distance
/// apart on the grid.
pub proof fn law_grid_distance(p: PacerModel, a: int, b: int)
    requires
        p.interval > 0,
        p.accepted(a) is Some,
        p.after(a).next_due != 0,
        p.after(a).accepted(b) is Some,
        b <= p.accepted(a)->0 + 2 * p.interval,
    ensures
        p.after(a).accepted(b)->0 - p.accepted(a)->0 == p.interval,
{
}

/// Law: frames that arrive no faster than the frame rate are all taken.
pub proof fn law_slow_input_passes(p: PacerModel, arrivals: Seq<int>)
    requires
        p.interval > 0,
        arrivals.len() > 0 ==> arrivals[0] >= p.next_due,
        forall|i: int|
            0 <= i < arrivals.len() - 1 ==> #[trigger] arrivals[i + 1] - arrivals[i] >= p.interval,
    ensures
        p.run(arrivals).len() == arrivals.len(),
    decreases arrivals.len(),
{
    if arrivals.len() > 0 {
        let rest = arrivals.skip(1);
        assert(rest.len() > 0 ==> rest[0] == arrivals[0int + 1]);
        assert forall|i: int| 0 <= i < rest.len() - 1 implies #[trigger] rest[i + 1] - rest[i]
            >= p.interval by {
            assert(rest[i + 1] == arrivals[i + 1 + 1]);
            assert(rest[i] == arrivals[i + 1]);
        }
        law_slow_input_passes(p.after(arrivals[0]), rest);
    }
}

/// Law: ticks become the time nearest to zero of the two around it: what is left
/// over is less than one unit, and on the side away from zero.
pub proof fn law_times_are_cut_towards_zero(a: int, b: int)
    requires
        b > 0,
    ensures
        a >= 0 ==> 0 <= trunc_div(a, b) && trunc_div(a, b) * b <= a < (trunc_div(a, b) + 1) * b,
        a <= 0 ==> trunc_div(a, b) <= 0 && (trunc_div(a, b) - 1) * b < a <= trunc_div(a, b) * b,
{
    let n = if a >= 0 {
        a
    } else {
        -a
    };
    let q = n / b;
    vstd::arithmetic::div_mod::lemma_fundamental_div_mod(n, b);
    vstd::arithmetic::div_mod::lemma_mod_bound(n, b);
    vstd::arithmetic::div_mod::lemma_div_pos_is_pos(n, b);
    assert(b * q == q * b) by (nonlinear_arith);
    assert((q + 1) * b == q * b + b) by (nonlinear_arith);
    assert((-q) * b == -(q * b)) by (nonlinear_arith);
    assert((-q - 1) * b == -(q * b) - b) by (nonlinear_arith);
    if a == 0 {
        assert(q == 0) by (nonlinear_arith)
            requires
                q * b <= 0,
                0 <= q,
                b > 0,
        ;
    }
}

/// Law: of the frames that wait, the newest win. A new frame is always queued, at
/// the end; while fewer than four wait none is lost, and then the oldest one alone.
pub proof fn law_newest_frames_win<T>(s: Seq<QFrame<T>>, f: QFrame<T>)
    ensures
        queued(s, f).len() > 0,
        queued(s, f).last() == f,
        s.len() < 4 ==> queued(s, f).len() == s.len() + 1 && (forall|i: int|
            0 <= i < s.len() ==> queued(s, f)[i] == #[trigger] s[i]),
        s.len() >= 4 ==> queued(s, f).len() == s.len() && (forall|i: int|
            1 <= i < s.len() ==> queued(s, f)[i - 1] == #[trigger] s[i]),
{
}

/// Law: a frame is taken if and only if it is due. It keeps its own time where the
/// pacer has not begun or more than a distance has gone by, and else gets the time
/// that was due. The next one is due a distance after that time; a frame that is
/// dropped changes nothing.
pub proof fn law_frames_are_taken_when_due(p: PacerModel, pts: int)
    ensures
        p.accepted(pts) is Some <==> pts >= p.next_due,
        pts >= p.next_due && (p.next_due == 0 || pts - p.next_due > p.interval) ==> p.accepted(pts)
            == Some(pts),
        p.next_due != 0 && 0 <= pts - p.next_due <= p.interval ==> p.accepted(pts) == Some(
            p.next_due,
        ),
        p.after(pts).interval == p.interval,
        pts < p.next_due ==> p.after(pts).next_due == p.next_due,
        pts >= p.next_due ==> p.after(pts).next_due == p.accepted(pts)->0 + p.interval,
{
}

/// Law: as many distances as there are frames in a second fill the second, but for
/// less than a frame's share of the last unit.
pub proof fn law_distances_fill_a_second(fps: u32)
    ensures
        fps > 0 ==> frame_interval(fps) * fps <= 10_000_000 < (frame_interval(fps) + 1) * fps,
        fps == 0 ==> frame_interval(fps) == 10_000_000,
{
    if fps > 0 {
        let n = fps as int;
        let q = 10_000_000int / n;
        vstd::arithmetic::div_mod::lemma_fundamental_div_mod(10_000_000, n);
        vstd::arithmetic::div_mod::lemma_mod_bound(10_000_000, n);
        assert(n * q == q * n) by (nonlinear_arith);
        assert((q + 1) * n == q * n + n) by (nonlinear_arith);
    }
}

/// Law: a pacer takes a frame at any time that leaves room for a distance after it
/// in 64 bits, and one that it drops at any time.
pub proof fn law_pacers_take_ordinary_times(p: PacerModel, pts: int)
    requires
        0 <= p.interval,
    ensures
        p.fits(pts) <==> pts < p.next_due || pts + p.interval <= 0x7FFF_FFFF_FFFF_FFFF,
{
}

} // verus!

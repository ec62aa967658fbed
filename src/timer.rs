//! Frame timing and the fixed-timestep accumulator.
//!
//! A `TimeContext` is ticked once per loop iteration. Each tick records the
//! time since the previous one in a history of recent frame times and adds
//! it to an accumulator, from which `check_update_time` hands out steps of a
//! fixed length.

use crate::history::{HistoryModel, LogBuffer, lemma_steady_slots};
use std::time::Instant;
use vstd::prelude::*;

verus! {

#[verifier::external_type_specification]
#[verifier::external_body]
pub struct ExInstant(std::time::Instant);

/// Relies on std::time::Instant::now: reads the monotonic clock.
#[verifier::external_body]
fn instant_now() -> (r: Instant) {
    Instant::now()
}

/// Relies on std::time::Instant::elapsed and Duration::as_nanos: the
/// nanoseconds from `anchor` to now, taken modulo 2^64. The value depends on
/// the clock, so nothing is promised of it.
#[verifier::external_body]
fn nanos_since(anchor: &Instant) -> (r: u64) {
    anchor.elapsed().as_nanos() as u64
}

/// How many frame times the history keeps.
pub const TIME_LOG_FRAMES: usize = 200;

/// Nanoseconds in one second.
pub const NANOS_PER_SEC: u64 = 1_000_000_000;

/// The sum of a sequence of durations.
pub open spec fn seq_sum(s: Seq<u64>) -> int
    decreases s.len(),
{
    if s.len() == 0 {
        0
    } else {
        seq_sum(s.drop_last()) + s.last()
    }
}

/// Sum of the slots divided by the number of filled slots; zero while none is filled.
pub open spec fn average_of(m: HistoryModel<u64>) -> int {
    if m.filled == 0 {
        0
    } else {
        seq_sum(m.slots) / (m.filled as int)
    }
}

/// The length of one fixed step at `fps` steps per second, rounded down to
/// whole nanoseconds. A rate of zero gives a step that is never due.
pub open spec fn target_dt(fps: u32) -> u64 {
    if fps == 0 {
        u64::MAX
    } else {
        (NANOS_PER_SEC / (fps as u64)) as u64
    }
}

/// The time a tick at instant `now` records: the time since the last tick,
/// or zero for an instant before it.
pub open spec fn frame_delta(last: nat, now: u64) -> nat {
    if now >= last {
        (now - last) as nat
    } else {
        0
    }
}

/// Our time-tracking state. Instants are kept as nanoseconds since the
/// instant the context was created.
pub struct TimeContext {
    init_instant: Instant,
    last_instant: u64,
    frame_durations: LogBuffer<u64>,
    residual_update_dt: u64,
    frame_count: usize,
}

impl TimeContext {
    /// The instant of the last tick, in nanoseconds since creation.
    pub closed spec fn last_tick(&self) -> nat {
        self.last_instant as nat
    }

    /// The recent frame times.
    pub closed spec fn history(&self) -> HistoryModel<u64> {
        self.frame_durations@
    }

    /// Time recorded by ticks and not yet handed out as fixed steps.
    pub closed spec fn residual(&self) -> nat {
        self.residual_update_dt as nat
    }

    /// The number of ticks since creation.
    pub closed spec fn ticks(&self) -> nat {
        self.frame_count as nat
    }

    pub open spec fn wf(&self) -> bool {
        &&& self.history().wf()
        &&& self.history().capacity() == TIME_LOG_FRAMES
        &&& self.residual() <= self.last_tick()
        &&& seq_sum(self.history().slots) <= self.last_tick()
    }

    /// `next` is `prev` after a tick at instant `now`.
    pub open spec fn ticked(prev: TimeContext, next: TimeContext, now: u64) -> bool {
        let delta = frame_delta(prev.last_tick(), now);
        &&& next.wf()
        &&& next.history() == prev.history().push(delta as u64)
        &&& next.last_tick() == if now >= prev.last_tick() {
            now as nat
        } else {
            prev.last_tick()
        }
        &&& next.residual() == prev.residual() + delta
        &&& next.ticks() == prev.ticks() + 1
    }

    /// `next` is `prev` after a tick at some instant.
    pub open spec fn ticked_once(prev: TimeContext, next: TimeContext) -> bool {
        exists|now: u64| TimeContext::ticked(prev, next, now)
    }

    /// Creates a context whose start is this instant, with no ticks yet.
    pub fn new() -> (r: TimeContext)
        ensures
            r.wf(),
            r.last_tick() == 0,
            r.history() == HistoryModel::fresh(TIME_LOG_FRAMES as nat, 0u64),
            r.residual() == 0,
            r.ticks() == 0,
    {
        let r = TimeContext {
            init_instant: instant_now(),
            last_instant: 0,
            frame_durations: LogBuffer::new(TIME_LOG_FRAMES, 0u64),
            residual_update_dt: 0,
            frame_count: 0,
        };
        proof {
            lemma_sum_zeros(TIME_LOG_FRAMES as nat);
        }
        r
    }

    /// Records that another frame has taken place, at instant `now`
    /// (nanoseconds since creation): its length goes into the history and
    /// into the time that fixed steps draw from.
    pub fn tick_at(&mut self, now: u64)
        requires
            old(self).wf(),
            old(self).ticks() < usize::MAX,
        ensures
            TimeContext::ticked(*old(self), *final(self), now),
    {
        let delta: u64 = if now >= self.last_instant {
            now - self.last_instant
        } else {
            0
        };
        proof {
            let m = self.frame_durations@;
            lemma_sum_update(m.slots, m.next_cursor() as int, delta);
        }
        self.frame_durations.push(delta);
        if now >= self.last_instant {
            self.last_instant = now;
        }
        self.frame_count = self.frame_count + 1;
        self.residual_update_dt = self.residual_update_dt + delta;
    }

    /// Records that another frame has taken place, now.
    pub fn tick(&mut self)
        requires
            old(self).wf(),
            old(self).ticks() < usize::MAX,
        ensures
            TimeContext::ticked_once(*old(self), *final(self)),
    {
        let now = nanos_since(&self.init_instant);
        self.tick_at(now);
    }
}

impl Default for TimeContext {
    fn default() -> (r: TimeContext)
        ensures
            r.wf(),
            r.last_tick() == 0,
            r.history() == HistoryModel::fresh(TIME_LOG_FRAMES as nat, 0u64),
            r.residual() == 0,
            r.ticks() == 0,
    {
        TimeContext::new()
    }
}

/// The length of the last frame.
pub fn get_delta(tc: &TimeContext) -> (r: u64)
    requires
        tc.wf(),
    ensures
        r == tc.history().latest(),
{
    tc.frame_durations.latest()
}

/// The average length of a frame over the history: the sum of all its slots
/// (never-written ones count as zero) divided by the number of filled slots.
/// Zero before the first tick.
pub fn get_average_delta(tc: &TimeContext) -> (r: u64)
    requires
        tc.wf(),
    ensures
        r == average_of(tc.history()),
{
    let slots = tc.frame_durations.contents();
    let ghost s = slots@;
    let mut sum: u64 = 0;
    let mut i: usize = 0;
    while i < slots.len()
        invariant
            s == tc.history().slots,
            slots@ == s,
            i <= s.len(),
            sum == seq_sum(s.take(i as int)),
            seq_sum(s) <= u64::MAX,
        decreases s.len() - i,
    {
        proof {
            assert(s.take(i + 1).drop_last() =~= s.take(i as int));
            lemma_sum_prefix(s, i + 1);
        }
        sum = sum + slots[i];
        i = i + 1;
    }
    proof {
        assert(s.take(s.len() as int) =~= s);
    }
    let count = tc.frame_durations.logical_count();
    if count == 0 {
        0
    } else {
        sum / (count as u64)
    }
}

/// The length of one fixed step at `fps` steps per second, in whole
/// nanoseconds; `u64::MAX` for a rate of zero.
pub fn fps_as_duration(fps: u32) -> (r: u64)
    ensures
        r == target_dt(fps),
{
    if fps == 0 {
        u64::MAX
    } else {
        NANOS_PER_SEC / (fps as u64)
    }
}

/// The time since the context was created, by the monotonic clock.
pub fn get_time_since_start(tc: &TimeContext) -> (r: u64) {
    nanos_since(&tc.init_instant)
}

/// Takes one fixed step of `1 / target_fps` seconds from the unspent time,
/// if more than that is left: returns whether it did. Called in a loop, it
/// hands out as many steps as the time recorded allows, keeping the
/// remainder for the next frame.
pub fn check_update_time(tc: &mut TimeContext, target_fps: u32) -> (r: bool)
    requires
        old(tc).wf(),
    ensures
        r == (old(tc).residual() > target_dt(target_fps)),
        final(tc).residual() == if r {
            old(tc).residual() - target_dt(target_fps)
        } else {
            old(tc).residual() as int
        },
        final(tc).wf(),
        final(tc).history() == old(tc).history(),
        final(tc).last_tick() == old(tc).last_tick(),
        final(tc).ticks() == old(tc).ticks(),
{
    let target = fps_as_duration(target_fps);
    if tc.residual_update_dt > target {
        tc.residual_update_dt = tc.residual_update_dt - target;
        true
    } else {
        false
    }
}

/// The time not yet handed out by `check_update_time`, for interpolating
/// between simulation states when drawing.
pub fn get_remaining_update_time(tc: &TimeContext) -> (r: u64)
    ensures
        r == tc.residual(),
{
    tc.residual_update_dt
}

/// The number of ticks since the context was created.
pub fn get_ticks(tc: &TimeContext) -> (r: usize)
    ensures
        r == tc.ticks(),
{
    tc.frame_count
}

proof fn lemma_sum_zeros(n: nat)
    ensures
        seq_sum(Seq::new(n, |i: int| 0u64)) == 0,
    decreases n,
{
    if n > 0 {
        assert(Seq::new(n, |i: int| 0u64).drop_last() =~= Seq::new((n - 1) as nat, |i: int| 0u64));
        lemma_sum_zeros((n - 1) as nat);
    }
}

proof fn lemma_sum_update(s: Seq<u64>, j: int, v: u64)
    requires
        0 <= j < s.len(),
    ensures
        seq_sum(s.update(j, v)) == seq_sum(s) - s[j] + v,
    decreases s.len(),
{
    if j == s.len() - 1 {
        assert(s.update(j, v).drop_last() =~= s.drop_last());
    } else {
        assert(s.update(j, v).drop_last() =~= s.drop_last().update(j, v));
        lemma_sum_update(s.drop_last(), j, v);
    }
}

proof fn lemma_sum_prefix(s: Seq<u64>, k: int)
    requires
        0 <= k <= s.len(),
    ensures
        seq_sum(s.take(k)) <= seq_sum(s),
    decreases s.len() - k,
{
    if k < s.len() {
        assert(s.take(k + 1).drop_last() =~= s.take(k));
        lemma_sum_prefix(s, k + 1);
    } else {
        assert(s.take(k) =~= s);
    }
}

proof fn lemma_sum_constant(n: nat, d: u64)
    ensures
        seq_sum(Seq::new(n, |i: int| d)) == n * d,
    decreases n,
{
    let s = Seq::new(n, |i: int| d);
    if n > 0 {
        let t = Seq::new((n - 1) as nat, |i: int| d);
        assert(s.drop_last() =~= t);
        lemma_sum_constant((n - 1) as nat, d);
        assert(seq_sum(t) == (n - 1) * d);
        assert(seq_sum(s) == seq_sum(t) + d);
        assert(n * d == (n - 1) * d + d) by (nonlinear_arith);
    } else {
        assert(seq_sum(s) == 0);
    }
}

/// Once the history has taken at least as many frame times as it holds, all
/// of them equal to `d`, the average frame time is `d`.
pub proof fn lemma_steady_average(m: HistoryModel<u64>, xs: Seq<u64>, d: u64)
    requires
        m.wf(),
        xs.len() >= m.capacity(),
        forall|i: int| 0 <= i < xs.len() ==> xs[i] == d,
    ensures
        average_of(m.push_all(xs)) == d,
{
    let r = m.push_all(xs);
    lemma_steady_slots(m, xs, d);
    lemma_sum_constant(m.capacity(), d);
    let c = m.capacity() as int;
    assert(c > 0);
    assert((c * d) / c == d) by (nonlinear_arith)
        requires
            c > 0,
    ;
}

/// The tick count is the number of ticks: in a run of contexts that starts
/// fresh and goes from each to the next by one tick, the last has counted
/// one tick per step.
pub proof fn lemma_tick_count(run: Seq<TimeContext>)
    requires
        run.len() > 0,
        run[0].ticks() == 0,
        forall|i: int|
            0 <= i < run.len() - 1 ==> #[trigger] TimeContext::ticked_once(run[i], run[i + 1]),
    ensures
        run.last().ticks() == run.len() - 1,
    decreases run.len(),
{
    if run.len() > 1 {
        let prev = run.drop_last();
        assert forall|i: int| 0 <= i < prev.len() - 1 implies #[trigger] TimeContext::ticked_once(
            prev[i],
            prev[i + 1],
        ) by {
            assert(prev[i] == run[i] && prev[i + 1] == run[i + 1]);
            assert(TimeContext::ticked_once(run[i], run[i + 1]));
        }
        lemma_tick_count(prev);
        let k = run.len() - 2;
        assert(TimeContext::ticked_once(run[k], run[k + 1]));
        assert(prev.last() == run[k]);
    }
}

} // verus!

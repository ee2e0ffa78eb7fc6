//! Timekeeping: the millisecond counter, the timer-interrupt notifier, and
//! the queue of pending time waits.
//!
//! The timer interrupt handler advances a monotonic millisecond counter and
//! raises a "fired" flag; a dedicated timer task consumes the flag and walks
//! the wait queue, marking every record whose end time has passed as woken.
//! A time wait completes only once its record is woken, which happens no
//! earlier than its end time ([`law_wait_completes_after_deadline`]).

use vstd::prelude::*;
use crossbeam_queue::SegQueue;
use crate::queues::{new_wait_queue, wait_queue_len, wait_queue_pop, wait_queue_push, wait_queue_view};

verus! {

/// The timer interrupt's shared state: the millisecond counter and the
/// edge-triggered "an interrupt fired since the last drain" flag.
pub struct TimerState {
    pub time_ms: u64,
    pub fired: bool,
}

impl TimerState {
    /// Fresh state: the clock starts at zero with no pending interrupt.
    pub fn new() -> (r: TimerState)
        ensures
            r.time_ms == 0,
            !r.fired,
    {
        TimerState { time_ms: 0, fired: false }
    }
}

/// One observable step of the timer state: a timer interrupt advances the
/// clock by one and raises the fired flag; a notifier poll consumes the
/// flag and leaves the clock alone.
pub open spec fn timer_step(t1: TimerState, t2: TimerState) -> bool {
    (t2.time_ms == t1.time_ms + 1 && t2.fired) || (t2.time_ms == t1.time_ms && !t2.fired)
}

/// Decision taken by the timer interrupt handler: advance the clock by one
/// millisecond and raise the fired flag. The clock never decreases.
pub fn on_1ms_timer_interrupt(t: &mut TimerState)
    requires
        old(t).time_ms < u64::MAX,
    ensures
        final(t).time_ms == old(t).time_ms + 1,
        final(t).time_ms >= old(t).time_ms,
        final(t).fired,
        timer_step(*old(t), *final(t)),
{
    t.time_ms = t.time_ms + 1;
    t.fired = true;
}

/// A future that resolves once a timer interrupt has fired.
pub struct WaitForInterrupt;

impl WaitForInterrupt {
    /// Decision taken when the future is polled: consume the fired flag and
    /// report whether an interrupt had fired. The clock is untouched, so a
    /// reader never observes it decreasing.
    pub fn poll(&self, t: &mut TimerState) -> (ready: bool)
        ensures
            ready == old(t).fired,
            !final(t).fired,
            final(t).time_ms == old(t).time_ms,
            timer_step(*old(t), *final(t)),
    {
        let was = t.fired;
        t.fired = false;
        was
    }
}

/// The future that resolves on the next timer interrupt.
pub fn wait_for_next_interrupt() -> WaitForInterrupt {
    WaitForInterrupt
}

/// One pending time wait: the millisecond deadline and whether the timer
/// task has woken it.
#[derive(Clone, Copy, Debug, PartialEq, Eq, Structural)]
pub struct TimeWaker {
    pub end_time: u64,
    pub woken: bool,
}

impl TimeWaker {
    /// A wait of `length_ms` started when the clock reads `now`: the record's
    /// deadline is `now + length_ms`.
    pub fn new(length_ms: u64, now: u64) -> (r: TimeWaker)
        requires
            now + length_ms <= u64::MAX,
        ensures
            r.end_time == now + length_ms,
            !r.woken,
    {
        TimeWaker { end_time: now + length_ms, woken: false }
    }

    /// Decision taken by the timer task for one record: the record is woken
    /// exactly when the clock has reached its deadline. Returns whether the
    /// record fired now.
    pub fn update(&mut self, current_time: u64) -> (fired: bool)
        ensures
            fired == (current_time >= old(self).end_time),
            final(self).end_time == old(self).end_time,
            final(self).woken == (old(self).woken || fired),
    {
        if current_time < self.end_time {
            return false;
        }
        self.woken = true;
        true
    }
}

/// The future returned by a time wait; it holds the wait's record.
pub struct TimeWaiter {
    pub time_waker: TimeWaker,
}

impl TimeWaiter {
    pub fn new(waker: TimeWaker) -> (r: TimeWaiter)
        ensures
            r.time_waker == waker,
    {
        TimeWaiter { time_waker: waker }
    }

    /// Decision taken when the future is polled: it is ready exactly when
    /// its record has been woken.
    pub fn poll(&self) -> (ready: bool)
        ensures
            ready == self.time_waker.woken,
    {
        self.time_waker.woken
    }
}

/// Capture a new time wait: build its record and append it to the pending
/// queue. Returns the record the future will poll.
pub fn register_wait(q: &mut SegQueue<(u64, bool)>, now: u64, length_ms: u64) -> (r: TimeWaker)
    requires
        now + length_ms <= u64::MAX,
    ensures
        r.end_time == now + length_ms,
        !r.woken,
        wait_queue_view(*final(q)) == wait_queue_view(*old(q)).push((r.end_time, r.woken)),
{
    let w = TimeWaker::new(length_ms, now);
    wait_queue_push(q, (w.end_time, w.woken));
    w
}

/// An empty queue of pending time waits.
pub fn new_time_wait_queue() -> (q: SegQueue<(u64, bool)>)
    ensures
        wait_queue_view(q) == Seq::<(u64, bool)>::empty(),
{
    new_wait_queue()
}

/// The records still pending after a drain at time `now`: those whose
/// deadline lies in the future, in their original order.
pub open spec fn pending_after(records: Seq<(u64, bool)>, now: u64) -> Seq<(u64, bool)>
    decreases records.len(),
{
    if records.len() == 0 {
        Seq::empty()
    } else if records[0].0 > now {
        seq![records[0]] + pending_after(records.drop_first(), now)
    } else {
        pending_after(records.drop_first(), now)
    }
}

/// The records a drain at time `now` wakes: those whose deadline has passed,
/// in their original order, with the woken flag set.
pub open spec fn woken_at(records: Seq<(u64, bool)>, now: u64) -> Seq<(u64, bool)>
    decreases records.len(),
{
    if records.len() == 0 {
        Seq::empty()
    } else if records[0].0 <= now {
        seq![(records[0].0, true)] + woken_at(records.drop_first(), now)
    } else {
        woken_at(records.drop_first(), now)
    }
}

/// `pending_after` and `woken_at` distribute over concatenation.
proof fn lemma_drain_concat(s1: Seq<(u64, bool)>, s2: Seq<(u64, bool)>, now: u64)
    ensures
        pending_after(s1 + s2, now) == pending_after(s1, now) + pending_after(s2, now),
        woken_at(s1 + s2, now) == woken_at(s1, now) + woken_at(s2, now),
    decreases s1.len(),
{
    if s1.len() == 0 {
        assert(s1 + s2 =~= s2);
        assert(pending_after(s1, now) + pending_after(s2, now) =~= pending_after(s2, now));
        assert(woken_at(s1, now) + woken_at(s2, now) =~= woken_at(s2, now));
    } else {
        lemma_drain_concat(s1.drop_first(), s2, now);
        assert((s1 + s2).drop_first() =~= s1.drop_first() + s2);
        if s1[0].0 > now {
            assert(pending_after(s1 + s2, now) =~= pending_after(s1, now) + pending_after(
                s2,
                now,
            ));
            assert(woken_at(s1 + s2, now) =~= woken_at(s1, now) + woken_at(s2, now));
        } else {
            assert(pending_after(s1 + s2, now) =~= pending_after(s1, now) + pending_after(
                s2,
                now,
            ));
            assert(woken_at(s1 + s2, now) =~= woken_at(s1, now) + woken_at(s2, now));
        }
    }
}

/// One sweep of the timer task at time `now`: every pending record whose
/// deadline has passed is woken and returned; the others stay queued in
/// their original order.
pub fn update_time_wakers(q: &mut SegQueue<(u64, bool)>, now: u64) -> (completed: Vec<(u64, bool)>)
    ensures
        wait_queue_view(*final(q)) == pending_after(wait_queue_view(*old(q)), now),
        completed@ == woken_at(wait_queue_view(*old(q)), now),
{
    let ghost original = wait_queue_view(*q);
    let ghost mut consumed: Seq<(u64, bool)> = Seq::empty();
    let mut retained: Vec<(u64, bool)> = Vec::new();
    let mut completed: Vec<(u64, bool)> = Vec::new();
    proof {
        assert(original =~= consumed + wait_queue_view(*q));
    }
    while wait_queue_len(&*q) > 0
        invariant
            original == consumed + wait_queue_view(*q),
            retained@ == pending_after(consumed, now),
            completed@ == woken_at(consumed, now),
        decreases wait_queue_view(*q).len(),
    {
        let head = wait_queue_pop(q);
        let rec = head.unwrap();
        let mut w = TimeWaker { end_time: rec.0, woken: rec.1 };
        let fired = w.update(now);
        if fired {
            completed.push((w.end_time, w.woken));
        } else {
            retained.push((w.end_time, w.woken));
        }
        proof {
            let one = seq![rec];
            lemma_drain_concat(consumed, one, now);
            assert(one.drop_first() =~= Seq::<(u64, bool)>::empty());
            assert(one.drop_first() == Seq::<(u64, bool)>::empty());
            assert(pending_after(Seq::<(u64, bool)>::empty(), now) == Seq::<(u64, bool)>::empty());
            assert(woken_at(Seq::<(u64, bool)>::empty(), now) == Seq::<(u64, bool)>::empty());
            assert(one[0] == rec);
            if rec.0 > now {
                assert(pending_after(one, now) =~= one);
                assert(woken_at(one, now) =~= Seq::<(u64, bool)>::empty());
            } else {
                assert(pending_after(one, now) =~= Seq::<(u64, bool)>::empty());
                assert(woken_at(one, now) =~= seq![(rec.0, true)]);
            }
            let c2 = consumed + one;
            assert(retained@ == pending_after(c2, now));
            assert(completed@ == woken_at(c2, now));
            assert(original =~= c2 + wait_queue_view(*q));
            consumed = c2;
        }
    }
    proof {
        assert(original =~= consumed);
        assert(wait_queue_view(*q) =~= retained@.subrange(0, 0));
    }
    let mut i: usize = 0;
    while i < retained.len()
        invariant
            i <= retained@.len(),
            wait_queue_view(*q) == retained@.subrange(0, i as int),
        decreases retained@.len() - i,
    {
        let rec = retained[i];
        wait_queue_push(q, rec);
        proof {
            assert(retained@.subrange(0, i as int).push(retained@[i as int]) =~= retained@.subrange(
                0,
                i + 1,
            ));
        }
        i = i + 1;
    }
    proof {
        assert(retained@.subrange(0, retained@.len() as int) =~= retained@);
    }
    completed
}

/// Every record a drain wakes had already reached its deadline: a time wait
/// completes no earlier than its end time.
pub proof fn law_wait_completes_after_deadline(records: Seq<(u64, bool)>, now: u64, i: int)
    requires
        0 <= i < woken_at(records, now).len(),
    ensures
        woken_at(records, now)[i].0 <= now,
        woken_at(records, now)[i].1,
    decreases records.len(),
{
    if records.len() > 0 {
        if records[0].0 <= now {
            if i > 0 {
                law_wait_completes_after_deadline(records.drop_first(), now, i - 1);
            }
        } else {
            law_wait_completes_after_deadline(records.drop_first(), now, i);
        }
    }
}

/// Timer monotonicity: along any run of timer interrupts and notifier
/// polls, the clock a reader observes never decreases.
pub proof fn law_time_monotonic(run: Seq<TimerState>, i: int, j: int)
    requires
        forall|k: int| 0 <= k < run.len() - 1 ==> timer_step(#[trigger] run[k], run[k + 1]),
        0 <= i <= j < run.len(),
    ensures
        run[i].time_ms <= run[j].time_ms,
    decreases j - i,
{
    if i < j {
        assert(timer_step(run[i], run[i + 1]));
        law_time_monotonic(run, i + 1, j);
    }
}

/// `wait_ms` correctness: a wait of `d` milliseconds captured at clock time
/// `t0` carries the deadline `t0 + d`, and the timer task wakes its record
/// at a sweep time `t1` only when `t1` has reached that deadline.
pub proof fn law_wait_ms_completion(t0: u64, d: u64, records: Seq<(u64, bool)>, t1: u64, i: int)
    requires
        t0 + d <= u64::MAX,
        0 <= i < woken_at(records, t1).len(),
        woken_at(records, t1)[i].0 == t0 + d,
    ensures
        t1 >= t0 + d,
{
    law_wait_completes_after_deadline(records, t1, i);
}

/// A record whose deadline lies ahead survives a drain unchanged: it is
/// neither woken nor dropped.
pub proof fn law_pending_waits_kept(records: Seq<(u64, bool)>, now: u64, i: int)
    requires
        0 <= i < records.len(),
        records[i].0 > now,
    ensures
        pending_after(records, now).contains(records[i]),
    decreases records.len(),
{
    if i == 0 {
        assert(pending_after(records, now)[0] == records[0]);
    } else {
        law_pending_waits_kept(records.drop_first(), now, i - 1);
        if records[0].0 > now {
            let rest = pending_after(records.drop_first(), now);
            let j = choose|j: int| 0 <= j < rest.len() && rest[j] == records[i];
            assert(pending_after(records, now)[j + 1] == records[i]);
        }
    }
}

} // verus!

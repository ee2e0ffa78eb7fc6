//! Exercises timekeeping: the millisecond counter, the interrupt notifier,
//! and time-wait completion.

use kernel_core::time::{
    new_time_wait_queue, on_1ms_timer_interrupt, register_wait, update_time_wakers,
    wait_for_next_interrupt, TimeWaiter, TimeWaker, TimerState,
};

#[test]
fn clock_is_monotonic_across_ticks_and_polls() {
    let mut t = TimerState::new();
    let mut last = t.time_ms;
    let wfi = wait_for_next_interrupt();
    for _ in 0..100 {
        on_1ms_timer_interrupt(&mut t);
        assert!(t.time_ms >= last, "clock went backwards");
        last = t.time_ms;
        let _ = wfi.poll(&mut t);
        assert!(t.time_ms >= last, "poll changed the clock");
        last = t.time_ms;
    }
    assert_eq!(t.time_ms, 100);
}

#[test]
fn interrupt_notifier_is_edge_triggered() {
    let mut t = TimerState::new();
    let wfi = wait_for_next_interrupt();
    assert!(!wfi.poll(&mut t), "no interrupt fired yet");
    on_1ms_timer_interrupt(&mut t);
    on_1ms_timer_interrupt(&mut t);
    assert!(wfi.poll(&mut t), "interrupt had fired");
    assert!(!wfi.poll(&mut t), "flag must be consumed");
}

#[test]
fn wait_completes_no_earlier_than_its_deadline() {
    // A wait of 50 ms registered at time 0 completes between the 50 ms and
    // the following sweep, never before.
    let mut t = TimerState::new();
    let mut q = new_time_wait_queue();
    let record = register_wait(&mut q, t.time_ms, 50);
    let mut waiter = TimeWaiter::new(record);
    for _ in 0..49 {
        on_1ms_timer_interrupt(&mut t);
        let completed = update_time_wakers(&mut q, t.time_ms);
        assert!(completed.is_empty(), "woke before the deadline");
        assert!(!waiter.poll());
    }
    on_1ms_timer_interrupt(&mut t);
    assert_eq!(t.time_ms, 50);
    let completed = update_time_wakers(&mut q, t.time_ms);
    assert_eq!(completed.len(), 1);
    assert_eq!(completed[0], (50, true));
    // the sweep hands the woken record back; the future's copy is woken
    waiter.time_waker = TimeWaker { end_time: completed[0].0, woken: completed[0].1 };
    assert!(waiter.poll());
}

#[test]
fn sweep_keeps_pending_waits_in_order() {
    let mut q = new_time_wait_queue();
    register_wait(&mut q, 0, 10);
    register_wait(&mut q, 0, 5);
    register_wait(&mut q, 0, 20);
    let completed = update_time_wakers(&mut q, 7);
    assert_eq!(completed, vec![(5, true)]);
    let completed = update_time_wakers(&mut q, 20);
    assert_eq!(completed, vec![(10, true), (20, true)]);
    let completed = update_time_wakers(&mut q, 100);
    assert!(completed.is_empty());
}

#[test]
fn updates_wake_exactly_at_deadline() {
    let mut w = TimeWaker::new(5, 10);
    assert_eq!(w.end_time, 15);
    assert!(!w.update(14));
    assert!(!w.woken);
    assert!(w.update(15));
    assert!(w.woken);
}

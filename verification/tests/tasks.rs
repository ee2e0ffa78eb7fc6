//! Exercises task ids, the spawner and the executor's drain decisions.

use kernel_core::task::{DrainStep, Executor, TaskId, TaskIdGenerator, TaskSpawner};

#[test]
fn task_ids_strictly_increase() {
    let mut gen = TaskIdGenerator::new();
    let mut prev = TaskId::new(&mut gen);
    for _ in 0..50 {
        let next = TaskId::new(&mut gen);
        assert!(prev.0 < next.0);
        prev = next;
    }
}

#[test]
fn spawned_task_is_polled() {
    let mut spawner = TaskSpawner::new();
    let mut executor = Executor::new();
    spawner.spawn(7);
    spawner.spawn(8);
    assert_eq!(executor.drain_step(&mut spawner), DrainStep::Poll(7));
    assert_eq!(executor.drain_step(&mut spawner), DrainStep::Poll(8));
    assert_eq!(executor.drain_step(&mut spawner), DrainStep::Idle);
}

#[test]
fn completed_task_id_is_skipped() {
    let mut spawner = TaskSpawner::new();
    let mut executor = Executor::new();
    spawner.spawn(3);
    assert_eq!(executor.drain_step(&mut spawner), DrainStep::Poll(3));
    executor.on_task_complete(&mut spawner, 3);
    // a stale wake-up of the finished task
    assert!(spawner.wake_task(3));
    assert_eq!(executor.drain_step(&mut spawner), DrainStep::Skip(3));
    assert_eq!(executor.drain_step(&mut spawner), DrainStep::Idle);
}

#[test]
fn woken_task_runs_again() {
    let mut spawner = TaskSpawner::new();
    let mut executor = Executor::new();
    spawner.spawn(1);
    assert_eq!(executor.drain_step(&mut spawner), DrainStep::Poll(1));
    // the task returned pending and its waker fires later
    assert!(spawner.wake_task(1));
    assert_eq!(executor.drain_step(&mut spawner), DrainStep::Poll(1));
}

#[test]
fn ready_queue_capacity_bounds_wakes() {
    let mut spawner = TaskSpawner::new();
    for id in 0..20 {
        assert!(spawner.wake_task(id));
    }
    assert!(!spawner.wake_task(99), "queue full");
}

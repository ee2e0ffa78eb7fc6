//! Cooperative task bookkeeping: task ids, the spawner's task table, and the
//! executor's ready-queue drain.
//!
//! Futures themselves are opaque to the kernel core; what is verified here is
//! the scheduling state: which ids are registered, what sits on the bounded
//! ready queue, and which task the executor decides to poll next. The
//! decisions mirror the executor loop: pop an id, skip it if the task is
//! gone, otherwise poll it with a cached waker and drop the bookkeeping when
//! the task completes.

use vstd::prelude::*;
use std::collections::BTreeSet;
use crossbeam_queue::ArrayQueue;
use crate::queues::{id_queue_cap, id_queue_len, id_queue_pop, id_queue_push, id_queue_view, new_id_queue};

verus! {

broadcast use {vstd::std_specs::btree::group_btree_axioms, vstd::laws_cmp::group_laws_cmp};

/// Number of ready-task slots in the bounded ready queue.
pub const TASK_QUEUE_CAPACITY: usize = 20;

/// Identifier of a spawned task; ids are allocated monotonically and never
/// reused.
#[derive(Debug, Clone, Copy, PartialEq, Eq, Structural, PartialOrd, Ord, Hash)]
pub struct TaskId(pub u64);

/// Source of fresh task ids: a monotonic counter.
pub struct TaskIdGenerator {
    pub next: u64,
}

/// The relation between the generator before and after one allocation, and
/// the id handed out.
pub open spec fn fresh_id_transition(g1: TaskIdGenerator, g2: TaskIdGenerator, id: TaskId) -> bool {
    id.0 == g1.next && g2.next == g1.next + 1
}

impl TaskIdGenerator {
    /// A generator whose first id will be zero.
    pub fn new() -> (r: TaskIdGenerator)
        ensures
            r.next == 0,
    {
        TaskIdGenerator { next: 0 }
    }
}

impl TaskId {
    /// Allocate the next id: the counter's current value, after which the
    /// counter advances.
    pub fn new(gen: &mut TaskIdGenerator) -> (r: TaskId)
        requires
            old(gen).next < u64::MAX,
        ensures
            fresh_id_transition(*old(gen), *final(gen), r),
    {
        let id = TaskId(gen.next);
        gen.next = gen.next + 1;
        id
    }
}

/// Task ids are strictly increasing: of two ids allocated in succession,
/// the later one is the larger.
pub proof fn law_task_ids_increase(
    g0: TaskIdGenerator,
    g1: TaskIdGenerator,
    g2: TaskIdGenerator,
    id1: TaskId,
    id2: TaskId,
)
    requires
        fresh_id_transition(g0, g1, id1),
        fresh_id_transition(g1, g2, id2),
    ensures
        id1.0 < id2.0,
{
}

/// The spawner's shared state: the table of live task ids and the bounded
/// queue of ready task ids. The futures keyed by these ids live outside the
/// verified core.
pub struct TaskSpawner {
    pub tasks: BTreeSet<u64>,
    pub task_queue: ArrayQueue<u64>,
}

impl TaskSpawner {
    /// The ids of tasks waiting on the ready queue, oldest first.
    pub open spec fn ready(self) -> Seq<u64> {
        id_queue_view(self.task_queue)
    }

    /// An empty task table and an empty ready queue.
    pub fn new() -> (r: TaskSpawner)
        ensures
            r.tasks@ == Set::<u64>::empty(),
            r.ready() == Seq::<u64>::empty(),
            id_queue_cap(r.task_queue) == TASK_QUEUE_CAPACITY as nat,
    {
        TaskSpawner {
            tasks: BTreeSet::new(),
            task_queue: new_id_queue(TASK_QUEUE_CAPACITY),
        }
    }

    /// Register a new task and mark it ready. Spawning an id twice or
    /// overflowing the ready queue is a programming error, so both are ruled
    /// out up front.
    pub fn spawn(&mut self, id: u64)
        requires
            !old(self).tasks@.contains(id),
            old(self).ready().len() < id_queue_cap(old(self).task_queue),
        ensures
            final(self).tasks@ == old(self).tasks@.insert(id),
            final(self).ready() == old(self).ready().push(id),
            id_queue_cap(final(self).task_queue) == id_queue_cap(old(self).task_queue),
    {
        self.tasks.insert(id);
        let pushed = id_queue_push(&mut self.task_queue, id);
    }

    /// Number of ids currently waiting on the ready queue.
    pub fn ready_len(&self) -> (r: usize)
        ensures
            r == self.ready().len(),
    {
        id_queue_len(&self.task_queue)
    }

    /// A waker for task `id`: waking pushes the id back onto the ready
    /// queue. The push fails only if the queue is already full.
    pub fn wake_task(&mut self, id: u64) -> (pushed: bool)
        ensures
            final(self).tasks@ == old(self).tasks@,
            id_queue_cap(final(self).task_queue) == id_queue_cap(old(self).task_queue),
            pushed <==> old(self).ready().len() < id_queue_cap(old(self).task_queue),
            pushed ==> final(self).ready() == old(self).ready().push(id),
            !pushed ==> final(self).ready() == old(self).ready(),
    {
        match id_queue_push(&mut self.task_queue, id) {
            Ok(_) => true,
            Err(_) => false,
        }
    }
}

/// What the executor decides to do with the head of the ready queue.
#[derive(Debug, Clone, Copy, PartialEq, Eq, Structural)]
pub enum DrainStep {
    /// The ready queue is empty; go back to sleep.
    Idle,
    /// The id's task has already completed; discard the id.
    Skip(u64),
    /// The task with this id should be polled next.
    Poll(u64),
}

/// The executor's private state: the ids it holds a cached waker for.
pub struct Executor {
    pub waker_cache: BTreeSet<u64>,
}

impl Executor {
    /// An executor with an empty waker cache.
    pub fn new() -> (r: Executor)
        ensures
            r.waker_cache@ == Set::<u64>::empty(),
    {
        Executor { waker_cache: BTreeSet::new() }
    }

    /// One step of the ready-queue drain: pop the oldest ready id; if its
    /// task is gone the id is discarded, otherwise a waker is cached for it
    /// and it is chosen for polling.
    pub fn drain_step(&mut self, spawner: &mut TaskSpawner) -> (r: DrainStep)
        ensures
            final(spawner).tasks@ == old(spawner).tasks@,
            id_queue_cap(final(spawner).task_queue) == id_queue_cap(old(spawner).task_queue),
            old(spawner).ready().len() == 0 ==> r == DrainStep::Idle && final(spawner).ready()
                == old(spawner).ready() && final(self).waker_cache@ == old(self).waker_cache@,
            old(spawner).ready().len() > 0 ==> ({
                let id = old(spawner).ready()[0];
                &&& final(spawner).ready() == old(spawner).ready().drop_first()
                &&& (old(spawner).tasks@.contains(id) ==> r == DrainStep::Poll(id)
                    && final(self).waker_cache@ == old(self).waker_cache@.insert(id))
                &&& (!old(spawner).tasks@.contains(id) ==> r == DrainStep::Skip(id)
                    && final(self).waker_cache@ == old(self).waker_cache@)
            }),
    {
        match id_queue_pop(&mut spawner.task_queue) {
            None => DrainStep::Idle,
            Some(id) => {
                if spawner.tasks.contains(&id) {
                    self.waker_cache.insert(id);
                    DrainStep::Poll(id)
                } else {
                    DrainStep::Skip(id)
                }
            },
        }
    }

    /// Bookkeeping once a polled task has run to completion: it leaves the
    /// task table and its cached waker is dropped.
    pub fn on_task_complete(&mut self, spawner: &mut TaskSpawner, id: u64)
        ensures
            final(spawner).tasks@ == old(spawner).tasks@.remove(id),
            final(spawner).ready() == old(spawner).ready(),
            id_queue_cap(final(spawner).task_queue) == id_queue_cap(old(spawner).task_queue),
            final(self).waker_cache@ == old(self).waker_cache@.remove(id),
    {
        let removed_task = spawner.tasks.remove(&id);
        let removed_waker = self.waker_cache.remove(&id);
    }
}

/// The ids a full drain of the ready queue polls, in order: those ids on the
/// queue whose tasks are still registered.
pub open spec fn drain_decisions(queue: Seq<u64>, table: Set<u64>) -> Seq<u64> {
    queue.filter(|id: u64| table.contains(id))
}

/// Executor liveness at the scheduling level: a ready task that is still
/// registered is polled during a full drain of the ready queue.
pub proof fn law_ready_task_polled(queue: Seq<u64>, table: Set<u64>, id: u64)
    requires
        queue.contains(id),
        table.contains(id),
    ensures
        drain_decisions(queue, table).contains(id),
{
    let i = choose|i: int| 0 <= i < queue.len() && queue[i] == id;
    queue.lemma_filter_contains(|x: u64| table.contains(x), i);
}

} // verus!

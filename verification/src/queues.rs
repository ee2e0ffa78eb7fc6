//! Trusted bindings for the lock-free queues that carry events between
//! interrupt handlers and tasks.
//!
//! The kernel keeps scancodes, log records, ready task ids and pending time
//! waits in bounded (`ArrayQueue`) or unbounded (`SegQueue`) queues. Each
//! queue's contents are modelled as a sequence, oldest element first; a push
//! appends at the tail, a pop takes the head, and a push against a full
//! bounded queue returns the value unchanged.

use vstd::prelude::*;
use crossbeam_queue::{ArrayQueue, SegQueue};

verus! {

/// Declares crossbeam's bounded MPMC ring buffer to the verifier.
#[verifier::external_type_specification]
#[verifier::external_body]
#[verifier::reject_recursive_types(T)]
pub struct ExArrayQueue<T>(ArrayQueue<T>);

/// Declares crossbeam's unbounded segmented queue to the verifier.
#[verifier::external_type_specification]
#[verifier::external_body]
#[verifier::reject_recursive_types(T)]
pub struct ExSegQueue<T>(SegQueue<T>);

/// Contents of a scancode queue, oldest first.
pub uninterp spec fn byte_queue_view(q: ArrayQueue<u8>) -> Seq<u8>;

/// Capacity a scancode queue was created with.
pub uninterp spec fn byte_queue_cap(q: ArrayQueue<u8>) -> nat;

/// Contents of a task-id queue, oldest first.
pub uninterp spec fn id_queue_view(q: ArrayQueue<u64>) -> Seq<u64>;

/// Capacity a task-id queue was created with.
pub uninterp spec fn id_queue_cap(q: ArrayQueue<u64>) -> nat;

/// Contents of a log-record queue, oldest first.
pub uninterp spec fn log_queue_view(q: ArrayQueue<[u8; 80]>) -> Seq<[u8; 80]>;

/// Capacity a log-record queue was created with.
pub uninterp spec fn log_queue_cap(q: ArrayQueue<[u8; 80]>) -> nat;

/// Contents of a time-wait queue, oldest first; each record is
/// `(end time in ms, woken flag)`.
pub uninterp spec fn wait_queue_view(q: SegQueue<(u64, bool)>) -> Seq<(u64, bool)>;

/// Relies on crossbeam's `ArrayQueue::new`: an empty queue of the given
/// capacity; a capacity of zero would make it panic.
#[verifier::external_body]
pub fn new_byte_queue(cap: usize) -> (q: ArrayQueue<u8>)
    requires
        cap >= 1,
    ensures
        byte_queue_view(q) == Seq::<u8>::empty(),
        byte_queue_cap(q) == cap as nat,
{
    ArrayQueue::new(cap)
}

/// Relies on crossbeam's `ArrayQueue::push`: appends at the tail, or hands
/// the value back when the queue is full.
#[verifier::external_body]
pub fn byte_queue_push(q: &mut ArrayQueue<u8>, v: u8) -> (r: Result<(), u8>)
    ensures
        byte_queue_cap(*final(q)) == byte_queue_cap(*old(q)),
        byte_queue_view(*old(q)).len() < byte_queue_cap(*old(q)) ==> r is Ok
            && byte_queue_view(*final(q)) == byte_queue_view(*old(q)).push(v),
        byte_queue_view(*old(q)).len() >= byte_queue_cap(*old(q)) ==> (r matches Err(e) && e == v
            && byte_queue_view(*final(q)) == byte_queue_view(*old(q))),
{
    q.push(v)
}

/// Relies on crossbeam's `ArrayQueue::pop`: removes and returns the oldest
/// element, or `None` when the queue is empty.
#[verifier::external_body]
pub fn byte_queue_pop(q: &mut ArrayQueue<u8>) -> (r: Option<u8>)
    ensures
        byte_queue_cap(*final(q)) == byte_queue_cap(*old(q)),
        byte_queue_view(*old(q)).len() > 0 ==> r == Some(byte_queue_view(*old(q))[0])
            && byte_queue_view(*final(q)) == byte_queue_view(*old(q)).drop_first(),
        byte_queue_view(*old(q)).len() == 0 ==> r is None && byte_queue_view(*final(q)) == byte_queue_view(*old(q)),
{
    q.pop()
}

/// Relies on crossbeam's `ArrayQueue::new`: an empty queue of the given
/// capacity; a capacity of zero would make it panic.
#[verifier::external_body]
pub fn new_id_queue(cap: usize) -> (q: ArrayQueue<u64>)
    requires
        cap >= 1,
    ensures
        id_queue_view(q) == Seq::<u64>::empty(),
        id_queue_cap(q) == cap as nat,
{
    ArrayQueue::new(cap)
}

/// Relies on crossbeam's `ArrayQueue::push`: appends at the tail, or hands
/// the value back when the queue is full.
#[verifier::external_body]
pub fn id_queue_push(q: &mut ArrayQueue<u64>, v: u64) -> (r: Result<(), u64>)
    ensures
        id_queue_cap(*final(q)) == id_queue_cap(*old(q)),
        id_queue_view(*old(q)).len() < id_queue_cap(*old(q)) ==> r is Ok
            && id_queue_view(*final(q)) == id_queue_view(*old(q)).push(v),
        id_queue_view(*old(q)).len() >= id_queue_cap(*old(q)) ==> (r matches Err(e) && e == v
            && id_queue_view(*final(q)) == id_queue_view(*old(q))),
{
    q.push(v)
}

/// Relies on crossbeam's `ArrayQueue::len`: the number of queued elements.
#[verifier::external_body]
pub fn id_queue_len(q: &ArrayQueue<u64>) -> (r: usize)
    ensures
        r == id_queue_view(*q).len(),
{
    q.len()
}

/// Relies on crossbeam's `ArrayQueue::pop`: removes and returns the oldest
/// element, or `None` when the queue is empty.
#[verifier::external_body]
pub fn id_queue_pop(q: &mut ArrayQueue<u64>) -> (r: Option<u64>)
    ensures
        id_queue_cap(*final(q)) == id_queue_cap(*old(q)),
        id_queue_view(*old(q)).len() > 0 ==> r == Some(id_queue_view(*old(q))[0])
            && id_queue_view(*final(q)) == id_queue_view(*old(q)).drop_first(),
        id_queue_view(*old(q)).len() == 0 ==> r is None && id_queue_view(*final(q)) == id_queue_view(*old(q)),
{
    q.pop()
}

/// Relies on crossbeam's `ArrayQueue::new`: an empty queue of the given
/// capacity; a capacity of zero would make it panic.
#[verifier::external_body]
pub fn new_log_queue(cap: usize) -> (q: ArrayQueue<[u8; 80]>)
    requires
        cap >= 1,
    ensures
        log_queue_view(q) == Seq::<[u8; 80]>::empty(),
        log_queue_cap(q) == cap as nat,
{
    ArrayQueue::new(cap)
}

/// Relies on crossbeam's `ArrayQueue::push`: appends at the tail, or hands
/// the value back when the queue is full.
#[verifier::external_body]
pub fn log_queue_push(q: &mut ArrayQueue<[u8; 80]>, v: [u8; 80]) -> (r: Result<(), [u8; 80]>)
    ensures
        log_queue_cap(*final(q)) == log_queue_cap(*old(q)),
        log_queue_view(*old(q)).len() < log_queue_cap(*old(q)) ==> r is Ok
            && log_queue_view(*final(q)) == log_queue_view(*old(q)).push(v),
        log_queue_view(*old(q)).len() >= log_queue_cap(*old(q)) ==> (r matches Err(e) && e == v
            && log_queue_view(*final(q)) == log_queue_view(*old(q))),
{
    q.push(v)
}

/// Relies on crossbeam's `ArrayQueue::pop`: removes and returns the oldest
/// element, or `None` when the queue is empty.
#[verifier::external_body]
pub fn log_queue_pop(q: &mut ArrayQueue<[u8; 80]>) -> (r: Option<[u8; 80]>)
    ensures
        log_queue_cap(*final(q)) == log_queue_cap(*old(q)),
        log_queue_view(*old(q)).len() > 0 ==> r == Some(log_queue_view(*old(q))[0])
            && log_queue_view(*final(q)) == log_queue_view(*old(q)).drop_first(),
        log_queue_view(*old(q)).len() == 0 ==> r is None && log_queue_view(*final(q)) == log_queue_view(*old(q)),
{
    q.pop()
}

/// Relies on crossbeam's `SegQueue::new`: an empty unbounded queue.
#[verifier::external_body]
pub fn new_wait_queue() -> (q: SegQueue<(u64, bool)>)
    ensures
        wait_queue_view(q) == Seq::<(u64, bool)>::empty(),
{
    SegQueue::new()
}

/// Relies on crossbeam's `SegQueue::push`: appends at the tail; the queue
/// grows as needed.
#[verifier::external_body]
pub fn wait_queue_push(q: &mut SegQueue<(u64, bool)>, v: (u64, bool))
    ensures
        wait_queue_view(*final(q)) == wait_queue_view(*old(q)).push(v),
{
    q.push(v)
}

/// Relies on crossbeam's `SegQueue::len`: the number of queued elements.
#[verifier::external_body]
pub fn wait_queue_len(q: &SegQueue<(u64, bool)>) -> (r: usize)
    ensures
        r == wait_queue_view(*q).len(),
{
    q.len()
}

/// Relies on crossbeam's `SegQueue::pop`: removes and returns the oldest
/// element, or `None` when the queue is empty.
#[verifier::external_body]
pub fn wait_queue_pop(q: &mut SegQueue<(u64, bool)>) -> (r: Option<(u64, bool)>)
    ensures
        wait_queue_view(*old(q)).len() > 0 ==> r == Some(wait_queue_view(*old(q))[0])
            && wait_queue_view(*final(q)) == wait_queue_view(*old(q)).drop_first(),
        wait_queue_view(*old(q)).len() == 0 ==> r is None && wait_queue_view(*final(q)) == wait_queue_view(*old(q)),
{
    q.pop()
}

} // verus!

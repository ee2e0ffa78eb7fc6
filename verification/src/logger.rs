//! Log records and the bounded log stream.
//!
//! Every log call renders one line into a fixed 80-byte record; the record is
//! appended to a bounded queue drained by the log task, and dropped (with a
//! notice on the serial sink) when the queue is full. The record writer
//! truncates at the record size instead of failing.

use vstd::prelude::*;
use crossbeam_queue::ArrayQueue;
use crate::queues::{log_queue_cap, log_queue_pop, log_queue_push, log_queue_view, new_log_queue};

verus! {

/// Size in bytes of one log record.
pub const MAX_LOG_SIZE: usize = 80;

/// Number of records the log stream buffers before it starts dropping.
pub const LOG_QUEUE_CAPACITY: usize = 32;

/// Log verbosity levels, in increasing order of noise.
#[derive(Clone, Copy, Debug, PartialEq, Eq, Structural)]
pub enum LevelFilter {
    Off,
    Error,
    Warn,
    Info,
    Debug,
    Trace,
}

/// Translate a level from the configuration's vocabulary into the sink's;
/// the two agree level by level.
pub fn convert_level(level: LevelFilter) -> (r: LevelFilter)
    ensures
        r == level,
{
    match level {
        LevelFilter::Off => LevelFilter::Off,
        LevelFilter::Error => LevelFilter::Error,
        LevelFilter::Warn => LevelFilter::Warn,
        LevelFilter::Info => LevelFilter::Info,
        LevelFilter::Debug => LevelFilter::Debug,
        LevelFilter::Trace => LevelFilter::Trace,
    }
}

/// Renders one log line into a fixed-size record, truncating at the record
/// size.
pub struct BufferWriter {
    pub buffer: [u8; 80],
    pub pos: usize,
}

impl BufferWriter {
    /// An empty record: all zero bytes, write position at the start.
    pub fn new() -> (r: BufferWriter)
        ensures
            r.pos == 0,
            r.buffer@ =~= Seq::new(80, |i: int| 0u8),
    {
        BufferWriter { buffer: [0; 80], pos: 0 }
    }

    /// Append `s` at the write position: bytes that fit are copied, the rest
    /// of `s` is dropped. Never fails.
    pub fn write_str(&mut self, s: &[u8])
        requires
            old(self).pos <= MAX_LOG_SIZE,
        ensures
            final(self).pos == if old(self).pos + s@.len() <= MAX_LOG_SIZE {
                old(self).pos + s@.len()
            } else {
                MAX_LOG_SIZE as int
            },
            forall|j: int|
                0 <= j < old(self).pos ==> final(self).buffer@[j] == old(self).buffer@[j],
            forall|j: int|
                old(self).pos <= j < final(self).pos
                    ==> final(self).buffer@[j] == s@[j - old(self).pos],
            forall|j: int|
                final(self).pos <= j < MAX_LOG_SIZE
                    ==> final(self).buffer@[j] == old(self).buffer@[j],
    {
        let available: usize = MAX_LOG_SIZE - self.pos;
        let to_copy: usize = if available < s.len() {
            available
        } else {
            s.len()
        };
        let mut k: usize = 0;
        while k < to_copy
            invariant
                k <= to_copy,
                self.pos == old(self).pos,
                self.pos + to_copy <= MAX_LOG_SIZE,
                to_copy <= s@.len(),
                forall|j: int|
                    0 <= j < self.pos ==> self.buffer@[j] == old(self).buffer@[j],
                forall|j: int|
                    self.pos <= j < self.pos + k ==> self.buffer@[j] == s@[j - self.pos],
                forall|j: int|
                    self.pos + k <= j < MAX_LOG_SIZE ==> self.buffer@[j] == old(self).buffer@[j],
            decreases to_copy - k,
        {
            self.buffer[self.pos + k] = s[k];
            k = k + 1;
        }
        self.pos = self.pos + to_copy;
    }
}

/// Bounded buffer of rendered log records between log call sites and the log
/// task.
pub struct LogStream {
    queue: ArrayQueue<[u8; 80]>,
}

impl LogStream {
    /// Records currently buffered, oldest first.
    pub closed spec fn contents(self) -> Seq<[u8; 80]> {
        log_queue_view(self.queue)
    }

    pub closed spec fn capacity(self) -> nat {
        log_queue_cap(self.queue)
    }

    /// An empty stream with the fixed record capacity.
    pub fn new() -> (r: LogStream)
        ensures
            r.contents() == Seq::<[u8; 80]>::empty(),
            r.capacity() == LOG_QUEUE_CAPACITY as nat,
    {
        LogStream { queue: new_log_queue(LOG_QUEUE_CAPACITY) }
    }

    /// Decision taken by a log call site: append the rendered record; a full
    /// queue drops the record, and the caller reports the drop on the serial
    /// sink.
    pub fn push_record(&mut self, record: [u8; 80]) -> (pushed: bool)
        ensures
            final(self).capacity() == old(self).capacity(),
            pushed <==> old(self).contents().len() < old(self).capacity(),
            pushed ==> final(self).contents() == old(self).contents().push(record),
            !pushed ==> final(self).contents() == old(self).contents(),
    {
        match log_queue_push(&mut self.queue, record) {
            Ok(_) => true,
            Err(_) => false,
        }
    }

    /// Fast-path read used by the stream's poll: the oldest buffered record,
    /// or `None` when the buffer is empty.
    pub fn try_next(&mut self) -> (r: Option<[u8; 80]>)
        ensures
            final(self).capacity() == old(self).capacity(),
            old(self).contents().len() > 0 ==> r == Some(old(self).contents()[0])
                && final(self).contents() == old(self).contents().drop_first(),
            old(self).contents().len() == 0 ==> r is None
                && final(self).contents() == old(self).contents(),
    {
        log_queue_pop(&mut self.queue)
    }
}

/// Build the log stream once at boot; the stream starts empty.
pub fn init_logger() -> (r: LogStream)
    ensures
        r.contents() == Seq::<[u8; 80]>::empty(),
        r.capacity() == LOG_QUEUE_CAPACITY as nat,
{
    LogStream::new()
}

} // verus!

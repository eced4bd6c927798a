//! The bounded ingestion queue.
//!
//! A FIFO of raw lines, capacity 255, between the serial-reading task
//! (producer) and the decoding/aggregation task (consumer).  A push onto
//! a full queue reports backpressure and returns the rejected line — it
//! never panics and never drops silently.  A pop from an empty queue
//! reports emptiness; the caller decides how to wait (the verified queue
//! holds no lock or condition variable of its own, the embedding
//! supplies them).

use vstd::prelude::*;

verus! {

/// Capacity of the ingestion queue.
pub const QUEUE_CAPACITY: usize = 255;

/// Bounded FIFO of raw lines.
pub struct LineQueue {
    items: Vec<String>,
}

impl View for LineQueue {
    type V = Seq<String>;

    closed spec fn view(&self) -> Seq<String> {
        self.items@
    }
}

impl LineQueue {
    /// The queue never holds more than its capacity.
    pub open spec fn wf(&self) -> bool {
        self@.len() <= QUEUE_CAPACITY
    }

    /// An empty queue.
    pub fn new() -> (q: LineQueue)
        ensures
            q@ == Seq::<String>::empty(),
            q.wf(),
    {
        LineQueue { items: Vec::new() }
    }

    /// Number of queued lines.
    pub fn len(&self) -> (n: usize)
        ensures
            n == self@.len(),
    {
        self.items.len()
    }

    /// Whether the queue holds no line.
    pub fn is_empty(&self) -> (r: bool)
        ensures
            r == (self@.len() == 0),
    {
        self.items.len() == 0
    }

    /// Enqueues `line` at the back; on a full queue nothing changes and
    /// the rejected line comes back as the backpressure signal.
    pub fn push(&mut self, line: String) -> (r: Result<(), String>)
        requires
            old(self).wf(),
        ensures
            final(self).wf(),
            old(self)@.len() < QUEUE_CAPACITY ==> r == Ok::<(), String>(()) && final(self)@ == old(
                self,
            )@.push(line),
            old(self)@.len() >= QUEUE_CAPACITY ==> final(self)@ == old(self)@ && r is Err && (match r {
                Err(rejected) => rejected == line,
                Ok(_) => false,
            }),
    {
        if self.items.len() < QUEUE_CAPACITY {
            self.items.push(line);
            Ok(())
        } else {
            Err(line)
        }
    }

    /// Dequeues the oldest line, if any.
    pub fn pop(&mut self) -> (r: Option<String>)
        requires
            old(self).wf(),
        ensures
            final(self).wf(),
            old(self)@.len() == 0 ==> r is None && final(self)@ == old(self)@,
            old(self)@.len() > 0 ==> r == Some(old(self)@.first()) && final(self)@ == old(
                self,
            )@.drop_first(),
    {
        if self.items.len() == 0 {
            None
        } else {
            let line = self.items.remove(0);
            proof {
                assert(self@ =~= old(self)@.drop_first());
            }
            Some(line)
        }
    }
}

} // verus!

use vstd::prelude::*;
use std::collections::VecDeque;
use crate::message::Request;

verus! {

/// A request awaiting its matching reply, paired with the send timestamp
/// in microseconds from the start of the run. Created by the send pipeline
/// immediately before transmission and consumed exactly once by the
/// receive pipeline.
#[derive(Clone, Debug)]
pub struct CorrelationEntry {
    pub request: Request,
    pub sent_micros: u64,
}

/// Bounded strict-FIFO buffer of correlation entries: the backpressure
/// point between the send and receive pipelines. Entries come out in the
/// order they went in. Suspending on a full or an empty queue belongs to
/// the concurrent shell around the library; here a full queue refuses the
/// push and an empty queue returns nothing, each visible in the result.
pub struct CorrelationQueue {
    pub entries: VecDeque<CorrelationEntry>,
    pub capacity: usize,
}

impl View for CorrelationQueue {
    type V = Seq<CorrelationEntry>;

    open spec fn view(&self) -> Seq<CorrelationEntry> {
        self.entries@
    }
}

impl CorrelationQueue {
    /// The queue never holds more than its fixed, positive capacity.
    pub open spec fn wf(&self) -> bool {
        &&& self.capacity >= 1
        &&& self@.len() <= self.capacity
    }

    /// An empty queue with the given capacity bound.
    pub fn with_capacity(capacity: usize) -> (q: CorrelationQueue)
        requires
            capacity >= 1,
        ensures
            q.wf(),
            q@ == Seq::<CorrelationEntry>::empty(),
            q.capacity == capacity,
    {
        CorrelationQueue { entries: VecDeque::new(), capacity }
    }

    /// Number of entries currently waiting.
    pub fn len(&self) -> (n: usize)
        ensures
            n == self@.len(),
    {
        self.entries.len()
    }

    /// Appends the newest entry at the back. A full queue refuses and
    /// hands the entry back unchanged: the caller suspends or retries
    /// after a pop, which is the system's backpressure.
    pub fn try_push(&mut self, entry: CorrelationEntry) -> (r: Result<(), CorrelationEntry>)
        requires
            old(self).wf(),
        ensures
            final(self).wf(),
            final(self).capacity == old(self).capacity,
            match r {
                Ok(()) => {
                    &&& old(self)@.len() < old(self).capacity
                    &&& final(self)@ == old(self)@.push(entry)
                },
                Err(e) => {
                    &&& old(self)@.len() == old(self).capacity
                    &&& final(self)@ == old(self)@
                    &&& e == entry
                },
            },
    {
        if self.entries.len() == self.capacity {
            return Err(entry);
        }
        self.entries.push_back(entry);
        Ok(())
    }

    /// Removes and returns the oldest entry — strict FIFO, the first entry
    /// pushed is the first popped. An empty queue returns `None`: the
    /// end-of-queue signal once the producer is closed and drained, or the
    /// mark of a reply with no outstanding entry.
    pub fn try_pop(&mut self) -> (r: Option<CorrelationEntry>)
        requires
            old(self).wf(),
        ensures
            final(self).wf(),
            final(self).capacity == old(self).capacity,
            match r {
                Some(e) => {
                    &&& old(self)@.len() > 0
                    &&& e == old(self)@[0]
                    &&& final(self)@ == old(self)@.drop_first()
                },
                None => {
                    &&& old(self)@.len() == 0
                    &&& final(self)@ == old(self)@
                },
            },
    {
        let r = self.entries.pop_front();
        proof {
            if old(self)@.len() > 0 {
                assert(old(self)@.drop_first() =~= old(self)@.subrange(
                    1,
                    old(self)@.len() as int,
                ));
            }
        }
        r
    }
}

} // verus!

use vstd::prelude::*;
use crate::histogram::LatencyHistogram;
use crate::queue::CorrelationEntry;

verus! {

/// What the receive pipeline observed for one inbound reply.
#[derive(Clone, Copy, Debug, PartialEq, Eq, Structural)]
pub enum ReplyOutcome {
    /// The popped entry's identifier matched the reply's; the elapsed time
    /// was recorded.
    Matched,
    /// The identifiers differed: an ordering anomaly, reported but still
    /// recorded and counted — one mismatch does not invalidate the run.
    IdMismatch,
    /// The reply had no outstanding entry: a protocol anomaly, reported;
    /// nothing is recorded and processing continues.
    QueueEmpty,
}

/// The receive pipeline's accumulating state: the latency histogram, fed
/// once per reply, and the count of replies received.
pub struct ReceiveState {
    pub hist: LatencyHistogram,
    pub received: u64,
}

impl ReceiveState {
    /// Every counted reply was recorded exactly once: the histogram's
    /// total is the received count.
    pub open spec fn wf(&self) -> bool {
        &&& self.hist.wf()
        &&& self.received == self.hist.total
    }

    /// A fresh state: nothing received, an empty histogram.
    pub fn new() -> (s: ReceiveState)
        ensures
            s.wf(),
            s.received == 0,
            s.hist.samples@ == Seq::<u64>::empty(),
            s.hist.max == 0,
    {
        ReceiveState { hist: LatencyHistogram::new(), received: 0 }
    }

    /// One step of the receive pipeline, applied after the transport
    /// yields a reply and the correlation queue was popped. With an
    /// outstanding entry, the elapsed time `now_micros - entry.sent_micros`
    /// is recorded and the reply counted, whether or not the identifiers
    /// match (a mismatch is reported in the outcome, not corrected). With
    /// no outstanding entry nothing changes: the anomaly is reported and
    /// the caller goes on with the next reply.
    pub fn on_reply(&mut self, reply_id: i64, entry: Option<CorrelationEntry>, now_micros: u64) -> (o:
        ReplyOutcome)
        requires
            old(self).wf(),
            old(self).received < u64::MAX,
            entry matches Some(e) ==> e.sent_micros <= now_micros,
        ensures
            final(self).wf(),
            final(self).hist.boundaries@ == old(self).hist.boundaries@,
            match entry {
                None => {
                    &&& o == ReplyOutcome::QueueEmpty
                    &&& *final(self) == *old(self)
                },
                Some(e) => {
                    &&& o == (if e.request.id == reply_id {
                        ReplyOutcome::Matched
                    } else {
                        ReplyOutcome::IdMismatch
                    })
                    &&& final(self).received == old(self).received + 1
                    &&& final(self).hist.samples@ == old(self).hist.samples@.push(
                        (now_micros - e.sent_micros) as u64,
                    )
                    &&& final(self).hist.max == if (now_micros - e.sent_micros) as u64 > old(
                        self,
                    ).hist.max {
                        (now_micros - e.sent_micros) as u64
                    } else {
                        old(self).hist.max
                    }
                },
            },
    {
        match entry {
            None => ReplyOutcome::QueueEmpty,
            Some(e) => {
                let elapsed = now_micros - e.sent_micros;
                self.hist.record(elapsed);
                self.received = self.received + 1;
                if e.request.id == reply_id {
                    ReplyOutcome::Matched
                } else {
                    ReplyOutcome::IdMismatch
                }
            },
        }
    }
}

} // verus!

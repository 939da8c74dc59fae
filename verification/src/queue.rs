//! Bounded event queue.
//!
//! A push to a full queue drops the event and counts it. The count is read,
//! and reset, on every flush.

use std::collections::VecDeque;

use vstd::prelude::*;

use crate::event::CerberusEvent;

verus! {

/// The queue of events that wait to be sent.
pub struct EventQueue {
    capacity: usize,
    deque: VecDeque<CerberusEvent>,
    dropped: u64,
}

impl EventQueue {
    /// The events in the queue, oldest first.
    pub closed spec fn view(&self) -> Seq<CerberusEvent> {
        self.deque@
    }

    /// How many events the queue may hold.
    pub closed spec fn capacity(&self) -> nat {
        self.capacity as nat
    }

    /// How many events were dropped since the count was last taken.
    pub closed spec fn dropped(&self) -> u64 {
        self.dropped
    }

    /// The queue holds no more than its capacity.
    pub closed spec fn wf(&self) -> bool {
        self.deque@.len() <= self.capacity
    }

    /// An empty queue.
    pub fn new(capacity: usize) -> (r: EventQueue)
        ensures
            r.wf(),
            r.view() == Seq::<CerberusEvent>::empty(),
            r.capacity() == capacity,
            r.dropped() == 0,
    {
        let initial: usize = if capacity < 1024 {
            capacity
        } else {
            1024
        };
        EventQueue { capacity, deque: VecDeque::with_capacity(initial), dropped: 0 }
    }

    /// Appends an event. A full queue drops it, counts it and says so.
    pub fn push(&mut self, event: CerberusEvent) -> (r: Result<(), ()>)
        requires
            old(self).wf(),
            old(self).dropped() < u64::MAX,
        ensures
            final(self).wf(),
            final(self).capacity() == old(self).capacity(),
            r is Ok <==> old(self).view().len() < old(self).capacity(),
            r is Ok ==> final(self).view() == old(self).view().push(event) && final(self).dropped()
                == old(self).dropped(),
            r is Err ==> final(self).view() == old(self).view() && final(self).dropped()
                == old(self).dropped() + 1,
    {
        if self.deque.len() >= self.capacity {
            self.dropped = self.dropped + 1;
            return Err(());
        }
        self.deque.push_back(event);
        Ok(())
    }

    /// Takes up to `max` events out of the queue, oldest first.
    pub fn drain(&mut self, max: usize) -> (r: Vec<CerberusEvent>)
        requires
            old(self).wf(),
        ensures
            final(self).wf(),
            final(self).capacity() == old(self).capacity(),
            final(self).dropped() == old(self).dropped(),
            r@ + final(self).view() == old(self).view(),
            r@.len() == if old(self).view().len() < max {
                old(self).view().len()
            } else {
                max as nat
            },
    {
        let mut out: Vec<CerberusEvent> = Vec::new();
        proof {
            assert(out@ + self.deque@ =~= old(self).deque@);
        }
        while out.len() < max && self.deque.len() > 0
            invariant
                out@.len() <= max,
                self.capacity == old(self).capacity,
                self.dropped == old(self).dropped,
                self.deque@.len() <= self.capacity,
                out@ + self.deque@ == old(self).deque@,
            decreases self.deque@.len(),
        {
            let ghost before = self.deque@;
            let ghost taken = out@;
            match self.deque.pop_front() {
                Some(event) => {
                    out.push(event);
                    proof {
                        assert(before =~= seq![event] + self.deque@);
                        assert(out@ + self.deque@ =~= taken + before);
                    }
                },
                None => {},
            }
        }
        out
    }

    /// Returns the count of dropped events and resets it.
    pub fn take_dropped(&mut self) -> (r: u64)
        requires
            old(self).wf(),
        ensures
            final(self).wf(),
            r == old(self).dropped(),
            final(self).dropped() == 0,
            final(self).view() == old(self).view(),
            final(self).capacity() == old(self).capacity(),
    {
        let d: u64 = self.dropped;
        self.dropped = 0;
        d
    }

    /// How many events were dropped since the count was last taken.
    pub fn dropped_count(&self) -> (r: u64)
        ensures
            r == self.dropped(),
    {
        self.dropped
    }
}

/// Memory is bounded: no operation leaves more events than the capacity.
pub proof fn law_queue_is_bounded(q: EventQueue)
    requires
        q.wf(),
    ensures
        q.view().len() <= q.capacity(),
{
}

} // verus!

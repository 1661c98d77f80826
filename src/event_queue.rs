//! The event kernel: timed events, delivered in order of time and then of emission.
use vstd::prelude::*;
use crate::events::Event;

verus! {

/// The component an event is addressed to.
#[derive(PartialEq, Eq, Structural, Clone, Copy)]
pub enum Component {
    ApiServer,
    Scheduler,
    Node(u64),
    ClusterAutoscaler,
    MetricsServer,
    VerticalAutoscaler,
    HorizontalAutoscaler,
}

pub struct QueuedEvent {
    pub time: u64,
    pub seq: u64,
    pub dest: Component,
    pub event: Event,
}

/// Whether `a` is delivered before `b`: earlier time, or same time and earlier emission.
pub open spec fn before(a: QueuedEvent, b: QueuedEvent) -> bool {
    a.time < b.time || (a.time == b.time && a.seq <= b.seq)
}

/// `a + b`, or the largest instant when that does not fit.
pub open spec fn sat_add(a: u64, b: u64) -> u64 {
    if a <= u64::MAX - b {
        (a + b) as u64
    } else {
        u64::MAX
    }
}

pub fn saturating_sum(a: u64, b: u64) -> (r: u64)
    ensures
        r == sat_add(a, b),
{
    if a <= u64::MAX - b {
        a + b
    } else {
        u64::MAX
    }
}

pub struct EventQueue {
    pub now: u64,
    pub next_seq: u64,
    pub events: Vec<QueuedEvent>,
    /// Number of events emitted so far.
    pub event_count: u64,
}

impl EventQueue {
    pub open spec fn pending(&self) -> Seq<QueuedEvent> {
        self.events@
    }

    /// The pending events once `event` is emitted for `dest` after `delay`.
    pub open spec fn queued(&self, event: Event, dest: Component, delay: u64) -> Seq<QueuedEvent> {
        self.pending().push(QueuedEvent { time: sat_add(self.now, delay), seq: self.next_seq, dest, event })
    }

    pub open spec fn wf(&self) -> bool {
        &&& forall|k: int| 0 <= k < self.pending().len() ==> (#[trigger] self.pending()[k]).time >= self.now
        &&& forall|k: int| 0 <= k < self.pending().len() ==> (#[trigger] self.pending()[k]).event.wf()
    }

    pub fn new() -> (r: Self)
        ensures
            r.wf(),
            r.now == 0,
            r.pending().len() == 0,
    {
        Self { now: 0, next_seq: 0, events: Vec::new(), event_count: 0 }
    }

    /// Schedules `event` for `dest` after `delay` (the time saturates at the largest
    /// representable instant).
    pub fn emit(&mut self, event: Event, dest: Component, delay: u64)
        requires
            old(self).wf(),
            event.wf(),
        ensures
            final(self).wf(),
            final(self).now == old(self).now,
            final(self).pending() == old(self).queued(event, dest, delay),
            final(self).pending().len() == old(self).pending().len() + 1,
            forall|k: int| 0 <= k < old(self).pending().len() ==> final(self).pending()[k] == old(self).pending()[k],
            final(self).pending().last().dest == dest,
            final(self).pending().last().event == event,
            final(self).pending().last().time == (if old(self).now <= u64::MAX - delay {
                old(self).now + delay
            } else {
                u64::MAX as int
            }),
    {
        let time: u64 = if self.now <= u64::MAX - delay {
            self.now + delay
        } else {
            u64::MAX
        };
        let seq = self.next_seq;
        if self.next_seq < u64::MAX {
            self.next_seq = self.next_seq + 1;
        }
        if self.event_count < u64::MAX {
            self.event_count = self.event_count + 1;
        }
        let ghost q = self.pending();
        let ghost ev = event;
        self.events.push(QueuedEvent { time, seq, dest, event });
        proof {
            assert(self.pending() =~= q.push(QueuedEvent { time, seq, dest, event: ev }));
        }
        proof {
            assert forall|k: int| 0 <= k < self.pending().len() implies (#[trigger] self.pending()[k]).time >= self.now
                && self.pending()[k].event.wf() && (k < q.len() ==> self.pending()[k] == q[k]) by {
                if k < q.len() {
                    assert(self.pending()[k] == q[k]);
                }
            }
        }
    }

    /// Index of the next event to deliver: the earliest, and among equally early ones
    /// the first emitted.
    pub fn next_index(&self) -> (r: Option<usize>)
        ensures
            self.pending().len() == 0 <==> r.is_none(),
            r matches Some(i) ==> i < self.pending().len() && forall|k: int|
                0 <= k < self.pending().len() ==> before(self.pending()[i as int], #[trigger] self.pending()[k]),
    {
        if self.events.len() == 0 {
            return None;
        }
        let mut best: usize = 0;
        let mut i: usize = 1;
        while i < self.events.len()
            invariant
                1 <= i <= self.pending().len(),
                best < i,
                forall|k: int| 0 <= k < i ==> before(self.pending()[best as int], #[trigger] self.pending()[k]),
            decreases self.pending().len() - i,
        {
            let e = &self.events[i];
            let b = &self.events[best];
            if e.time < b.time || (e.time == b.time && e.seq < b.seq) {
                best = i;
            }
            i += 1;
        }
        Some(best)
    }

    /// Takes the next event out of the queue and advances the clock to its time.
    pub fn pop_next(&mut self) -> (r: Option<QueuedEvent>)
        requires
            old(self).wf(),
        ensures
            final(self).wf(),
            final(self).now >= old(self).now,
            old(self).pending().len() == 0 ==> r.is_none() && final(self).now == old(self).now,
            old(self).pending().len() > 0 ==> r.is_some(),
            r matches Some(e) ==> {
                &&& e.event.wf()
                &&& e.time == final(self).now
                &&& exists|i: int| 0 <= i < old(self).pending().len() && old(self).pending()[i] == e
                    && final(self).pending() == old(self).pending().remove(i)
                    && forall|k: int| 0 <= k < old(self).pending().len() ==> before(e, #[trigger] old(self).pending()[k])
                &&& forall|k: int| 0 <= k < final(self).pending().len() ==> before(e, #[trigger] final(self).pending()[k])
                &&& final(self).pending().len() + 1 == old(self).pending().len()
            },
    {
        match self.next_index() {
            None => None,
            Some(i) => {
                let ghost q = self.pending();
                let e = self.events.remove(i);
                self.now = e.time;
                proof {
                    assert forall|k: int| 0 <= k < self.pending().len() implies (#[trigger] self.pending()[k]).time >= self.now
                        && self.pending()[k].event.wf() && before(e, self.pending()[k]) by {
                        let k0 = if k < i { k } else { k + 1 };
                        assert(self.pending()[k] == q[k0]);
                    }
                    assert(q[i as int] == e);
                }
                Some(e)
            },
        }
    }

    /// Time of the next event, if any.
    pub fn peek_time(&self) -> (r: Option<u64>)
        ensures
            self.pending().len() == 0 <==> r.is_none(),
            r matches Some(t) ==> exists|i: int| 0 <= i < self.pending().len() && self.pending()[i].time == t
                && forall|k: int| 0 <= k < self.pending().len() ==> t <= #[trigger] self.pending()[k].time,
    {
        match self.next_index() {
            None => None,
            Some(i) => Some(self.events[i].time),
        }
    }
}

} // verus!

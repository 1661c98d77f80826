//! The scheduler: an active queue ordered by priority, an unschedulable list, and
//! exponential backoff for pods that failed to schedule.
use vstd::prelude::*;
use crate::node::Node;
use crate::pod::Pod;
use crate::scheduler_algorithm::{SchedulerAlgorithm, fitting, nodes_wf};
use crate::simulation_config::MAX_TIME;

verus! {

/// How often the unschedulable list is flushed (ms).
pub const UNSCHEDULABLE_QUEUE_FLUSH_TIMEOUT: u64 = 30_000;

/// How long a pod stays unschedulable before a flush moves it on (ms).
pub const POD_MIN_UNSCHEDULABLE_TIMEOUT: u64 = 30_000;

/// `initial` doubled `n` times.
pub open spec fn doubled(initial: int, n: nat) -> int
    decreases n,
{
    if n == 0 {
        initial
    } else {
        2 * doubled(initial, (n - 1) as nat)
    }
}

/// The backoff after `attempts` failed attempts: `initial · 2^(attempts−1)`, capped at
/// `max` (a pod with no failed attempt waits `initial`, capped likewise).
pub open spec fn backoff(attempts: u64, initial: u64, max: u64) -> int {
    let n: nat = if attempts == 0 { 0 } else { (attempts - 1) as nat };
    if doubled(initial as int, n) <= max {
        doubled(initial as int, n)
    } else {
        max as int
    }
}

proof fn lemma_doubled_grows(initial: int, n: nat, m: nat)
    requires
        initial >= 0,
        n <= m,
    ensures
        initial <= doubled(initial, n) <= doubled(initial, m),
    decreases m,
{
    if m > n {
        lemma_doubled_grows(initial, n, (m - 1) as nat);
    } else if n > 0 {
        lemma_doubled_grows(initial, (n - 1) as nat, (n - 1) as nat);
    }
}

/// Backoff never shrinks as failed attempts accumulate, and never exceeds its cap.
pub proof fn lemma_backoff_monotone(a1: u64, a2: u64, initial: u64, max: u64)
    requires
        a1 <= a2,
    ensures
        backoff(a1, initial, max) <= backoff(a2, initial, max),
        backoff(a2, initial, max) <= max,
{
    let n1: nat = if a1 == 0 { 0 } else { (a1 - 1) as nat };
    let n2: nat = if a2 == 0 { 0 } else { (a2 - 1) as nat };
    lemma_doubled_grows(initial as int, n1, n2);
}

pub fn calculate_backoff_duration(attempts: u64, initial: u64, max: u64) -> (r: u64)
    requires
        max <= MAX_TIME,
    ensures
        r == backoff(attempts, initial, max),
{
    let n: u64 = if attempts == 0 {
        0
    } else {
        attempts - 1
    };
    let mut duration: u64 = initial;
    let mut i: u64 = 0;
    while i < n && duration <= max
        invariant
            i <= n,
            duration == doubled(initial as int, i as nat),
            max <= MAX_TIME,
        decreases n - i,
    {
        duration = 2 * duration;
        i += 1;
    }
    proof {
        lemma_doubled_grows(initial as int, i as nat, n as nat);
    }
    if duration <= max {
        duration
    } else {
        max
    }
}

/// The failed-attempt count after one more failure.
pub open spec fn attempts_after(a: Option<u64>) -> u64 {
    match a {
        None => 1,
        Some(n) => if n < u64::MAX {
            (n + 1) as u64
        } else {
            n
        },
    }
}

/// Index of the pod to schedule next: the first one of highest priority.
pub open spec fn is_next(queue: Seq<Pod>, b: int) -> bool {
    &&& 0 <= b < queue.len()
    &&& forall|k: int| 0 <= k < queue.len() ==> queue[k].priority_weight <= queue[b].priority_weight
    &&& forall|k: int| 0 <= k < b ==> queue[k].priority_weight < queue[b].priority_weight
}

pub open spec fn all_wf(s: Seq<Pod>) -> bool {
    forall|k: int| 0 <= k < s.len() ==> (#[trigger] s[k]).wf()
}

/// What one scheduling cycle decided for the pod it took.
pub enum Decision {
    /// The pod goes to the working node at this index.
    Assigned { pod: Pod, node_index: usize },
    /// No node can take the pod in this cycle.
    Failed { pod: Pod, scheduling_cycle: u64 },
}

pub struct Scheduler {
    pub active_queue: Vec<Pod>,
    pub unschedulable_queue: Vec<Pod>,
    pub scheduler_algorithm: SchedulerAlgorithm,
    pub scheduling_cycle: u64,
    /// The scheduling cycle at the last move of unschedulable pods, if any.
    pub moving_cycle: Option<u64>,
}

impl Scheduler {
    pub open spec fn wf(&self) -> bool {
        &&& all_wf(self.active_queue@)
        &&& all_wf(self.unschedulable_queue@)
        &&& forall|k: int|
            0 <= k < self.unschedulable_queue@.len()
                ==> (#[trigger] self.unschedulable_queue@[k]).scheduling_timestamp is Some
    }

    /// Whether a pod that failed in cycle `cycle` goes to the unschedulable list (no
    /// move has happened since that cycle began) rather than to backoff.
    pub open spec fn goes_unschedulable(&self, cycle: u64) -> bool {
        match self.moving_cycle {
            None => true,
            Some(m) => m < cycle,
        }
    }

    pub fn new(scheduler_algorithm: SchedulerAlgorithm) -> (r: Self)
        ensures
            r.wf(),
            r.active_queue@.len() == 0,
            r.unschedulable_queue@.len() == 0,
            r.scheduling_cycle == 0,
            r.moving_cycle.is_none(),
            r.scheduler_algorithm == scheduler_algorithm,
    {
        Self {
            active_queue: Vec::new(),
            unschedulable_queue: Vec::new(),
            scheduler_algorithm,
            scheduling_cycle: 0,
            moving_cycle: None,
        }
    }

    /// Adds a pod to the active queue; tells whether the queue was empty before, in
    /// which case a scheduling cycle has to be started.
    pub fn add_pod(&mut self, pod: Pod) -> (was_empty: bool)
        requires
            old(self).wf(),
            pod.wf(),
        ensures
            final(self).wf(),
            final(self).active_queue@ == old(self).active_queue@.push(pod),
            final(self).unschedulable_queue@ == old(self).unschedulable_queue@,
            final(self).scheduling_cycle == old(self).scheduling_cycle,
            final(self).moving_cycle == old(self).moving_cycle,
            final(self).scheduler_algorithm == old(self).scheduler_algorithm,
            was_empty == (old(self).active_queue@.len() == 0),
    {
        let was_empty = self.active_queue.len() == 0;
        self.active_queue.push(pod);
        proof {
            assert forall|k: int| 0 <= k < self.active_queue@.len() implies (#[trigger] self.active_queue@[k]).wf() by {
                if k < old(self).active_queue@.len() {
                    assert(self.active_queue@[k] == old(self).active_queue@[k]);
                }
            }
        }
        was_empty
    }

    /// Takes the first pod of highest priority out of the active queue.
    pub fn get_pod(&mut self) -> (r: Option<Pod>)
        requires
            old(self).wf(),
        ensures
            final(self).wf(),
            final(self).unschedulable_queue@ == old(self).unschedulable_queue@,
            final(self).scheduling_cycle == old(self).scheduling_cycle,
            final(self).moving_cycle == old(self).moving_cycle,
            final(self).scheduler_algorithm == old(self).scheduler_algorithm,
            old(self).active_queue@.len() == 0 ==> r.is_none() && final(self).active_queue@
                == old(self).active_queue@,
            old(self).active_queue@.len() > 0 ==> exists|b: int|
                is_next(old(self).active_queue@, b) && r == Some(old(self).active_queue@[b])
                    && final(self).active_queue@ == old(self).active_queue@.remove(b),
            r matches Some(p) ==> p.wf(),
    {
        if self.active_queue.len() == 0 {
            return None;
        }
        let mut best: usize = 0;
        let mut i: usize = 1;
        while i < self.active_queue.len()
            invariant
                1 <= i <= self.active_queue@.len(),
                best < i,
                forall|k: int|
                    0 <= k < i ==> self.active_queue@[k].priority_weight
                        <= self.active_queue@[best as int].priority_weight,
                forall|k: int|
                    0 <= k < best ==> self.active_queue@[k].priority_weight
                        < self.active_queue@[best as int].priority_weight,
            decreases self.active_queue@.len() - i,
        {
            if self.active_queue[i].priority_weight > self.active_queue[best].priority_weight {
                best = i;
            }
            i += 1;
        }
        let ghost q = self.active_queue@;
        let pod = self.active_queue.remove(best);
        proof {
            assert(is_next(q, best as int));
            assert forall|k: int| 0 <= k < self.active_queue@.len() implies (#[trigger] self.active_queue@[k]).wf() by {
                let k0 = if k < best { k } else { k + 1 };
                assert(self.active_queue@[k] == q[k0]);
            }
            assert(q[best as int].wf());
        }
        Some(pod)
    }

    /// One scheduling cycle: takes the next pod and either assigns it to the first
    /// best-scoring node that can take it, or reports that none can.
    pub fn schedule_next_pod(&mut self, nodes: &Vec<Node>, threshold: u64) -> (r: Option<Decision>)
        requires
            old(self).wf(),
            nodes_wf(nodes@),
            threshold <= 1000,
        ensures
            final(self).wf(),
            final(self).unschedulable_queue@ == old(self).unschedulable_queue@,
            final(self).moving_cycle == old(self).moving_cycle,
            final(self).scheduler_algorithm == old(self).scheduler_algorithm,
            old(self).active_queue@.len() == 0 <==> r.is_none(),
            r.is_some() ==> final(self).scheduling_cycle == (if old(self).scheduling_cycle < u64::MAX {
                old(self).scheduling_cycle + 1
            } else {
                old(self).scheduling_cycle as int
            }),
            r.is_some() ==> exists|b: int|
                is_next(old(self).active_queue@, b) && final(self).active_queue@ == old(self).active_queue@.remove(b)
                    && (match r {
                    Some(Decision::Assigned { pod, node_index }) => pod == (Pod {
                        scheduling_attempts: None,
                        scheduling_timestamp: None,
                        ..old(self).active_queue@[b]
                    }),
                    Some(Decision::Failed { pod, scheduling_cycle }) => pod == old(self).active_queue@[b],
                    None => true,
                }),
            r.is_none() ==> final(self).active_queue@ == old(self).active_queue@
                && final(self).scheduling_cycle == old(self).scheduling_cycle,
            match r {
                None => true,
                Some(Decision::Assigned { pod, node_index }) => {
                    &&& node_index < nodes@.len()
                    &&& fitting(nodes@, nodes@.len() as int, pod, threshold).contains(node_index)
                    &&& old(self).scheduler_algorithm.is_first_best(
                        nodes@,
                        fitting(nodes@, nodes@.len() as int, pod, threshold),
                        pod,
                        node_index,
                    )
                    &&& pod.scheduling_attempts.is_none()
                    &&& pod.scheduling_timestamp.is_none()
                    &&& pod.wf()
                },
                Some(Decision::Failed { pod, scheduling_cycle }) => {
                    &&& fitting(nodes@, nodes@.len() as int, pod, threshold).len() == 0
                    &&& scheduling_cycle == final(self).scheduling_cycle
                    &&& pod.wf()
                },
            },
    {
        match self.get_pod() {
            None => None,
            Some(pod) => {
                if self.scheduling_cycle < u64::MAX {
                    self.scheduling_cycle = self.scheduling_cycle + 1;
                }
                let filtered = self.scheduler_algorithm.filter(&pod, nodes, threshold);
                if filtered.len() == 0 {
                    return Some(Decision::Failed { pod, scheduling_cycle: self.scheduling_cycle });
                }
                let scores = self.scheduler_algorithm.score(&pod, nodes, &filtered);
                let best = crate::scheduler_algorithm::best_score_index(&scores);
                let node_index = filtered[best];
                proof {
                    assert(filtered@[best as int] == node_index);
                    assert(filtered@.contains(node_index));
                    let f = filtered@;
                    assert forall|k: int| 0 <= k < f.len() implies self.scheduler_algorithm.score_of(nodes@[#[trigger] f[k] as int], pod)
                        == scores@[k] by {}
                    assert(self.scheduler_algorithm.is_first_best(nodes@, f, pod, node_index)) by {
                        assert(0 <= best < f.len() && f[best as int] == node_index);
                        assert forall|k: int| 0 <= k < f.len() implies self.scheduler_algorithm.score_of(nodes@[#[trigger] f[k] as int], pod)
                            <= self.scheduler_algorithm.score_of(nodes@[f[best as int] as int], pod) by {
                            assert(scores@[k] <= scores@[best as int]);
                        }
                        assert forall|k: int| 0 <= k < best implies self.scheduler_algorithm.score_of(nodes@[#[trigger] f[k] as int], pod)
                            < self.scheduler_algorithm.score_of(nodes@[f[best as int] as int], pod) by {
                            assert(scores@[k] < scores@[best as int]);
                        }
                    }
                }
                let ghost given = pod;
                let mut pod = pod;
                pod.scheduling_attempts = None;
                pod.scheduling_timestamp = None;
                proof {
                    crate::scheduler_algorithm::lemma_fitting_same_requests(
                        nodes@,
                        nodes@.len() as int,
                        given,
                        pod,
                        threshold,
                    );
                }
                Some(Decision::Assigned { pod, node_index })
            },
        }
    }

    /// Handles a pod whose cycle `scheduling_cycle` failed: counts the attempt, then
    /// either lists it as unschedulable (stamped with `now`) or hands it back with the
    /// backoff it must wait before retrying.
    pub fn add_pod_to_unschedulable(
        &mut self,
        pod: Pod,
        scheduling_cycle: u64,
        now: u64,
        initial_backoff: u64,
        max_backoff: u64,
    ) -> (r: Option<(Pod, u64)>)
        requires
            old(self).wf(),
            pod.wf(),
            max_backoff <= MAX_TIME,
        ensures
            final(self).wf(),
            final(self).active_queue@ == old(self).active_queue@,
            final(self).scheduling_cycle == old(self).scheduling_cycle,
            final(self).moving_cycle == old(self).moving_cycle,
            final(self).scheduler_algorithm == old(self).scheduler_algorithm,
            old(self).goes_unschedulable(scheduling_cycle) ==> {
                &&& r.is_none()
                &&& final(self).unschedulable_queue@ == old(self).unschedulable_queue@.push(
                    Pod {
                        scheduling_attempts: Some(attempts_after(pod.scheduling_attempts)),
                        scheduling_timestamp: Some(now),
                        ..pod
                    },
                )
                &&& final(self).unschedulable_queue@.last().id == pod.id
                &&& final(self).unschedulable_queue@.last().scheduling_timestamp == Some(now)
            },
            !old(self).goes_unschedulable(scheduling_cycle) ==> {
                &&& final(self).unschedulable_queue@ == old(self).unschedulable_queue@
                &&& r matches Some((p, d))
                &&& p == (Pod { scheduling_attempts: Some(attempts_after(pod.scheduling_attempts)), ..pod })
                &&& p.wf()
                &&& d == backoff(p.scheduling_attempts->0, initial_backoff, max_backoff)
            },
    {
        let mut pod = pod;
        let attempts: u64 = match pod.scheduling_attempts {
            None => 1,
            Some(a) => if a < u64::MAX {
                a + 1
            } else {
                a
            },
        };
        pod.scheduling_attempts = Some(attempts);
        let unschedulable = match self.moving_cycle {
            None => true,
            Some(m) => m < scheduling_cycle,
        };
        if unschedulable {
            pod.scheduling_timestamp = Some(now);
            self.unschedulable_queue.push(pod);
            proof {
                assert forall|k: int| 0 <= k < self.unschedulable_queue@.len() implies (#[trigger] self.unschedulable_queue@[k]).wf()
                    && self.unschedulable_queue@[k].scheduling_timestamp is Some by {
                    if k < old(self).unschedulable_queue@.len() {
                        assert(self.unschedulable_queue@[k] == old(self).unschedulable_queue@[k]);
                    }
                }
            }
            None
        } else {
            let d = calculate_backoff_duration(attempts, initial_backoff, max_backoff);
            Some((pod, d))
        }
    }

    /// Sends each of `pods` back to the active queue when its backoff since it was
    /// stamped has run out, or returns it with the rest of its backoff; then records
    /// the move. Tells also whether the active queue went from empty to non-empty.
    pub fn move_pods_to_active_or_backoff(
        &mut self,
        pods: Vec<Pod>,
        now: u64,
        initial_backoff: u64,
        max_backoff: u64,
    ) -> (r: (Vec<(Pod, u64)>, bool))
        requires
            old(self).wf(),
            all_wf(pods@),
            max_backoff <= MAX_TIME,
        ensures
            final(self).wf(),
            final(self).unschedulable_queue@ == old(self).unschedulable_queue@,
            final(self).scheduling_cycle == old(self).scheduling_cycle,
            final(self).moving_cycle == Some(old(self).scheduling_cycle),
            final(self).scheduler_algorithm == old(self).scheduler_algorithm,
            final(self).active_queue@.len() + r.0@.len() == old(self).active_queue@.len()
                + pods@.len(),
            forall|k: int| 0 <= k < r.0@.len() ==> (#[trigger] r.0@[k]).0.wf() && r.0@[k].1 <= max_backoff,
            r.1 == (old(self).active_queue@.len() == 0 && final(self).active_queue@.len() > 0),
    {
        let mut pods = pods;
        let mut backoffs: Vec<(Pod, u64)> = Vec::new();
        let ghost n0 = pods@.len();
        let start_empty = self.active_queue.len() == 0;
        while pods.len() > 0
            invariant
                self.wf(),
                all_wf(pods@),
                max_backoff <= MAX_TIME,
                self.unschedulable_queue@ == old(self).unschedulable_queue@,
                self.scheduling_cycle == old(self).scheduling_cycle,
                self.moving_cycle == old(self).moving_cycle,
                self.scheduler_algorithm == old(self).scheduler_algorithm,
                self.active_queue@.len() + backoffs@.len() + pods@.len() == old(
                    self,
                ).active_queue@.len() + n0,
                self.active_queue@.len() >= old(self).active_queue@.len(),
                start_empty == (old(self).active_queue@.len() == 0),
                forall|k: int| 0 <= k < backoffs@.len() ==> (#[trigger] backoffs@[k]).0.wf() && backoffs@[k].1 <= max_backoff,
            decreases pods@.len(),
        {
            let pod = pods.pop().unwrap();
            let attempts: u64 = match pod.scheduling_attempts {
                None => 0,
                Some(a) => a,
            };
            let stamp: u64 = match pod.scheduling_timestamp {
                None => now,
                Some(t) => t,
            };
            let d = calculate_backoff_duration(attempts, initial_backoff, max_backoff);
            proof {
                lemma_backoff_monotone(attempts, attempts, initial_backoff, max_backoff);
            }
            let waited: u64 = if now >= stamp {
                now - stamp
            } else {
                0
            };
            if waited < d {
                backoffs.push((pod, d - waited));
            } else {
                self.add_pod(pod);
            }
        }
        self.moving_cycle = Some(self.scheduling_cycle);
        let became_active = start_empty && self.active_queue.len() > 0;
        (backoffs, became_active)
    }

    /// Moves on the unschedulable pods stamped at least the minimum unschedulable
    /// timeout ago; the others stay listed.
    pub fn flush_unschedulable_queue(&mut self, now: u64, initial_backoff: u64, max_backoff: u64) -> (r: (Vec<(Pod, u64)>, bool))
        requires
            old(self).wf(),
            max_backoff <= MAX_TIME,
        ensures
            final(self).wf(),
            final(self).scheduling_cycle == old(self).scheduling_cycle,
            final(self).scheduler_algorithm == old(self).scheduler_algorithm,
            forall|k: int|
                0 <= k < final(self).unschedulable_queue@.len() ==> {
                    let t = (#[trigger] final(self).unschedulable_queue@[k]).scheduling_timestamp->0;
                    t <= now ==> now - t < POD_MIN_UNSCHEDULABLE_TIMEOUT
                },
            forall|k: int| 0 <= k < r.0@.len() ==> (#[trigger] r.0@[k]).0.wf() && r.0@[k].1 <= max_backoff,
            final(self).active_queue@.len() + final(self).unschedulable_queue@.len() + r.0@.len()
                == old(self).active_queue@.len() + old(self).unschedulable_queue@.len(),
    {
        let mut stay: Vec<Pod> = Vec::new();
        let mut flush: Vec<Pod> = Vec::new();
        while self.unschedulable_queue.len() > 0
            invariant
                self.wf(),
                all_wf(stay@),
                all_wf(flush@),
                self.scheduling_cycle == old(self).scheduling_cycle,
                self.scheduler_algorithm == old(self).scheduler_algorithm,
                self.active_queue@ == old(self).active_queue@,
                stay@.len() + flush@.len() + self.unschedulable_queue@.len() == old(
                    self,
                ).unschedulable_queue@.len(),
                forall|k: int|
                    0 <= k < stay@.len() ==> (#[trigger] stay@[k]).scheduling_timestamp is Some && {
                        let t = stay@[k].scheduling_timestamp->0;
                        t <= now ==> now - t < POD_MIN_UNSCHEDULABLE_TIMEOUT
                    },
            decreases self.unschedulable_queue@.len(),
        {
            let ghost q = self.unschedulable_queue@;
            let pod = self.unschedulable_queue.pop().unwrap();
            proof {
                assert(pod == q.last());
                assert(q[q.len() - 1].scheduling_timestamp is Some);
                assert forall|k: int| 0 <= k < self.unschedulable_queue@.len() implies (#[trigger] self.unschedulable_queue@[k]).wf()
                    && self.unschedulable_queue@[k].scheduling_timestamp is Some by {
                    assert(self.unschedulable_queue@[k] == q[k]);
                }
            }
            let t = match pod.scheduling_timestamp {
                Some(t) => t,
                None => now,
            };
            if t <= now && now - t < POD_MIN_UNSCHEDULABLE_TIMEOUT {
                stay.push(pod);
            } else if t > now {
                stay.push(pod);
            } else {
                flush.push(pod);
            }
            proof {
                assert forall|k: int| 0 <= k < stay@.len() implies (#[trigger] stay@[k]).wf() by {}
                assert forall|k: int| 0 <= k < flush@.len() implies (#[trigger] flush@[k]).wf() by {}
            }
        }
        self.unschedulable_queue = stay;
        self.move_pods_to_active_or_backoff(flush, now, initial_backoff, max_backoff)
    }

    /// Moves every unschedulable pod on, to the active queue or to backoff.
    pub fn move_all_to_active_or_backoff(&mut self, now: u64, initial_backoff: u64, max_backoff: u64) -> (r: (Vec<(Pod, u64)>, bool))
        requires
            old(self).wf(),
            max_backoff <= MAX_TIME,
        ensures
            final(self).wf(),
            final(self).unschedulable_queue@.len() == 0,
            final(self).scheduling_cycle == old(self).scheduling_cycle,
            final(self).moving_cycle == Some(old(self).scheduling_cycle),
            final(self).scheduler_algorithm == old(self).scheduler_algorithm,
            final(self).active_queue@.len() + r.0@.len() == old(self).active_queue@.len()
                + old(self).unschedulable_queue@.len(),
            forall|k: int| 0 <= k < r.0@.len() ==> (#[trigger] r.0@[k]).0.wf() && r.0@[k].1 <= max_backoff,
    {
        let mut pods: Vec<Pod> = Vec::new();
        std::mem::swap(&mut pods, &mut self.unschedulable_queue);
        self.move_pods_to_active_or_backoff(pods, now, initial_backoff, max_backoff)
    }
}

} // verus!

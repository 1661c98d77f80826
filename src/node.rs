//! A node: resource accounting, pod admission, periodic reconciliation and eviction.
use vstd::prelude::*;
use crate::load_model::MAX_RESOURCE;
use crate::pod::{Pod, max_of, min_of, max_u64, min_u64};

verus! {

#[derive(PartialEq, Eq, Structural, Clone, Copy, Debug)]
pub enum NodeState {
    Working,
    Failed,
}

impl NodeState {
    pub fn name(&self) -> (r: &'static str) {
        match self {
            NodeState::Working => "working",
            NodeState::Failed => "failed",
        }
    }
}

/// Sum of `f` over the pods of `s`.
pub open spec fn sum_of(s: Seq<Pod>, f: spec_fn(Pod) -> int) -> int
    decreases s.len(),
{
    if s.len() == 0 {
        0
    } else {
        sum_of(s.drop_last(), f) + f(s.last())
    }
}

pub open spec fn cpu_share_of() -> spec_fn(Pod) -> int {
    |p: Pod| p.cpu_share()
}

pub open spec fn memory_share_of() -> spec_fn(Pod) -> int {
    |p: Pod| p.memory_share()
}

pub open spec fn cpu_of() -> spec_fn(Pod) -> int {
    |p: Pod| p.cpu as int
}

pub open spec fn memory_of() -> spec_fn(Pod) -> int {
    |p: Pod| p.memory as int
}

pub proof fn lemma_sum_push(s: Seq<Pod>, p: Pod, f: spec_fn(Pod) -> int)
    ensures
        sum_of(s.push(p), f) == sum_of(s, f) + f(p),
{
    assert(s.push(p).drop_last() =~= s);
}

pub proof fn lemma_sum_remove(s: Seq<Pod>, i: int, f: spec_fn(Pod) -> int)
    requires
        0 <= i < s.len(),
    ensures
        sum_of(s.remove(i), f) == sum_of(s, f) - f(s[i]),
    decreases s.len(),
{
    if i == s.len() - 1 {
        assert(s.remove(i) =~= s.drop_last());
    } else {
        lemma_sum_remove(s.drop_last(), i, f);
        assert(s.remove(i).drop_last() =~= s.drop_last().remove(i));
        assert(s.remove(i).last() == s.last());
    }
}

pub proof fn lemma_sum_update(s: Seq<Pod>, i: int, p: Pod, f: spec_fn(Pod) -> int)
    requires
        0 <= i < s.len(),
    ensures
        sum_of(s.update(i, p), f) == sum_of(s, f) - f(s[i]) + f(p),
    decreases s.len(),
{
    if i == s.len() - 1 {
        assert(s.update(i, p).drop_last() =~= s.drop_last());
    } else {
        lemma_sum_update(s.drop_last(), i, p, f);
        assert(s.update(i, p).drop_last() =~= s.drop_last().update(i, p));
    }
}

pub struct Node {
    pub id: u64,
    pub cpu_total: u64,
    pub memory_total: u64,
    pub cpu_allocated: u64,
    pub memory_allocated: u64,
    pub cpu_used: u64,
    pub memory_used: u64,
    pub state: NodeState,
    pub pods: Vec<Pod>,
    pub memory_overuse_count: u64,
}

/// Index of the first pod with id `id` among `s`, looking from `i` on.
pub open spec fn first_pod_with_id(s: Seq<Pod>, id: u64, i: int) -> Option<usize>
    decreases s.len() - i,
{
    if i < 0 || i >= s.len() {
        None
    } else if s[i].id == id {
        Some(i as usize)
    } else {
        first_pod_with_id(s, id, i + 1)
    }
}

/// Whether `id` names a pod of `s`.
pub open spec fn holds_pod(s: Seq<Pod>, id: u64) -> bool {
    exists|i: int| 0 <= i < s.len() && s[i].id == id
}

pub open spec fn unique_ids(s: Seq<Pod>) -> bool {
    forall|i: int, j: int| 0 <= i < s.len() && 0 <= j < s.len() && i != j ==> s[i].id != s[j].id
}

impl Node {
    pub open spec fn resident(&self) -> Seq<Pod> {
        self.pods@
    }

    pub open spec fn loads(&self) -> (int, int, int, int) {
        (
            self.cpu_allocated as int,
            self.memory_allocated as int,
            self.cpu_used as int,
            self.memory_used as int,
        )
    }

    pub open spec fn wf(&self) -> bool {
        &&& self.cpu_total <= MAX_RESOURCE
        &&& self.memory_total <= MAX_RESOURCE
        &&& self.cpu_allocated <= self.cpu_total
        &&& self.memory_allocated <= self.memory_total
        &&& forall|i: int| 0 <= i < self.resident().len() ==> (#[trigger] self.resident()[i]).wf()
        &&& unique_ids(self.resident())
        &&& self.cpu_allocated == sum_of(self.resident(), cpu_share_of())
        &&& self.memory_allocated == sum_of(self.resident(), memory_share_of())
        &&& self.cpu_used == sum_of(self.resident(), cpu_of())
        &&& self.memory_used == sum_of(self.resident(), memory_of())
        &&& self.state == NodeState::Failed ==> self.resident().len() == 0
    }

    pub open spec fn free_cpu(&self) -> int {
        self.cpu_total - self.cpu_allocated
    }

    pub open spec fn free_memory(&self) -> int {
        self.memory_total - self.memory_allocated
    }

    /// Whether `memory_allocated` memory would put the node under memory pressure,
    /// with `threshold` in per mille of the total.
    pub open spec fn under_pressure(&self, memory_allocated: int, threshold: u64) -> bool {
        memory_allocated * 1000 >= threshold * self.memory_total
    }

    /// The memory a pod gets on admission: its demand `now − start_time` after it
    /// started, capped by its limit.
    pub open spec fn admitted_memory(pod: Pod, now: u64, cnt_replicas: u64) -> int {
        min_of(pod.wanted_memory(now, cnt_replicas), pod.limit_memory as int)
    }

    /// The CPU a pod gets on admission: its demand, capped by its limit and the free CPU.
    pub open spec fn admitted_cpu(&self, pod: Pod, now: u64, cnt_replicas: u64) -> int {
        min_of(
            min_of(pod.wanted_cpu(now, cnt_replicas), pod.limit_cpu as int),
            self.free_cpu(),
        )
    }

    /// The memory a resident pod wants on reconciliation, capped by its limit.
    pub open spec fn reconciled_memory(pod: Pod, now: u64, cnt_replicas: u64) -> int {
        min_of(pod.wanted_memory(now, cnt_replicas), pod.limit_memory as int)
    }

    /// Whether a pod is admitted: free CPU covers its request, free memory covers its
    /// admitted memory and its request.
    pub open spec fn admits(&self, pod: Pod, now: u64, cnt_replicas: u64) -> bool {
        &&& self.free_cpu() >= pod.requested_cpu
        &&& self.free_memory() >= max_of(
            Self::admitted_memory(pod, now, cnt_replicas),
            pod.requested_memory as int,
        )
    }

    /// The pod as it stands on the node after admission.
    pub open spec fn placed(&self, pod: Pod, now: u64, cnt_replicas: u64) -> Pod {
        Pod {
            start_time: now,
            cpu: self.admitted_cpu(pod, now, cnt_replicas) as u64,
            memory: Self::admitted_memory(pod, now, cnt_replicas) as u64,
            ..pod
        }
    }

    pub fn new(id: u64, cpu_total: u64, memory_total: u64, state: NodeState) -> (r: Self)
        requires
            cpu_total <= MAX_RESOURCE,
            memory_total <= MAX_RESOURCE,
        ensures
            r.wf(),
            r.id == id,
            r.cpu_total == cpu_total,
            r.memory_total == memory_total,
            r.state == state,
            r.resident().len() == 0,
            r.loads() == (0int, 0int, 0int, 0int),
            r.memory_overuse_count == 0,
    {
        Self {
            id,
            cpu_total,
            memory_total,
            cpu_allocated: 0,
            memory_allocated: 0,
            cpu_used: 0,
            memory_used: 0,
            state,
            pods: Vec::new(),
            memory_overuse_count: 0,
        }
    }

    pub fn get_free_cpu(&self) -> (r: u64)
        requires
            self.wf(),
        ensures
            r == self.free_cpu(),
    {
        self.cpu_total - self.cpu_allocated
    }

    pub fn get_free_memory(&self) -> (r: u64)
        requires
            self.wf(),
        ensures
            r == self.free_memory(),
    {
        self.memory_total - self.memory_allocated
    }

    /// Index of the pod `pod_id` among the residents.
    pub fn find_pod(&self, pod_id: u64) -> (r: Option<usize>)
        ensures
            match r {
                None => !holds_pod(self.resident(), pod_id),
                Some(i) => i < self.resident().len() && self.resident()[i as int].id == pod_id,
            },
            r == first_pod_with_id(self.resident(), pod_id, 0),
    {
        let mut i: usize = 0;
        while i < self.pods.len()
            invariant
                i <= self.resident().len(),
                forall|k: int| 0 <= k < i ==> self.resident()[k].id != pod_id,
                first_pod_with_id(self.resident(), pod_id, 0) == first_pod_with_id(self.resident(), pod_id, i as int),
            decreases self.resident().len() - i,
        {
            if self.pods[i].id == pod_id {
                return Some(i);
            }
            i += 1;
        }
        None
    }

    /// Tries to place `pod` at time `now`; gives the pod back when it does not fit.
    pub fn add_pod(&mut self, pod: Pod, now: u64, cnt_replicas: u64) -> (r: Option<Pod>)
        requires
            old(self).wf(),
            pod.wf(),
            old(self).state == NodeState::Working,
            !holds_pod(old(self).resident(), pod.id),
        ensures
            final(self).wf(),
            final(self).id == old(self).id,
            final(self).state == old(self).state,
            final(self).cpu_total == old(self).cpu_total,
            final(self).memory_total == old(self).memory_total,
            final(self).memory_overuse_count == old(self).memory_overuse_count,
            old(self).admits(pod, now, cnt_replicas) ==> {
                &&& r.is_none()
                &&& final(self).resident() == old(self).resident().push(
                    old(self).placed(pod, now, cnt_replicas),
                )
                &&& final(self).cpu_allocated == old(self).cpu_allocated + old(self).placed(
                    pod,
                    now,
                    cnt_replicas,
                ).cpu_share()
                &&& final(self).memory_allocated == old(self).memory_allocated + old(self).placed(
                    pod,
                    now,
                    cnt_replicas,
                ).memory_share()
            },
            !old(self).admits(pod, now, cnt_replicas) ==> r == Some(pod) && *final(self) == *old(
                self,
            ),
    {
        let wanted_memory = min_u64(pod.get_wanted_memory(now, cnt_replicas), pod.limit_memory);
        let free_cpu = self.get_free_cpu();
        let free_memory = self.get_free_memory();
        if free_cpu < pod.requested_cpu || free_memory < max_u64(wanted_memory, pod.requested_memory) {
            return Some(pod);
        }
        let ghost given = pod;
        let wanted_cpu = min_u64(
            min_u64(pod.get_wanted_cpu(now, cnt_replicas), pod.limit_cpu),
            free_cpu,
        );
        let mut pod = pod;
        pod.start_time = now;
        pod.cpu = wanted_cpu;
        pod.memory = wanted_memory;
        assert(pod == self.placed(given, now, cnt_replicas));
        let ghost s = self.resident();
        proof {
            lemma_sum_push(s, pod, cpu_share_of());
            lemma_sum_push(s, pod, memory_share_of());
            lemma_sum_push(s, pod, cpu_of());
            lemma_sum_push(s, pod, memory_of());
            assert(pod.cpu <= pod.cpu_share());
            assert(pod.memory <= pod.memory_share());
            lemma_used_within_allocated(s);
        }
        self.cpu_used = self.cpu_used + pod.cpu;
        self.memory_used = self.memory_used + pod.memory;
        self.cpu_allocated = self.cpu_allocated + max_u64(pod.cpu, pod.requested_cpu);
        self.memory_allocated = self.memory_allocated + max_u64(pod.memory, pod.requested_memory);
        self.pods.push(pod);
        proof {
            assert forall|i: int, j: int|
                0 <= i < self.resident().len() && 0 <= j < self.resident().len() && i != j
                    implies self.resident()[i].id != self.resident()[j].id by {
                if i < s.len() && j < s.len() {
                    assert(s[i] == self.resident()[i]);
                } else if i == s.len() {
                    assert(self.resident()[j] == s[j]);
                } else {
                    assert(self.resident()[i] == s[i]);
                }
            }
            assert forall|i: int| 0 <= i < self.resident().len() implies (
            #[trigger] self.resident()[i]).wf() by {
                if i < s.len() {
                    assert(self.resident()[i] == s[i]);
                }
            }
        }
        None
    }

    /// Takes the pod `pod_id` off the node, handing it back with nothing assigned.
    pub fn remove_pod(&mut self, pod_id: u64) -> (r: Option<Pod>)
        requires
            old(self).wf(),
        ensures
            final(self).wf(),
            final(self).id == old(self).id,
            final(self).state == old(self).state,
            final(self).cpu_total == old(self).cpu_total,
            final(self).memory_total == old(self).memory_total,
            final(self).memory_overuse_count == old(self).memory_overuse_count,
            !holds_pod(final(self).resident(), pod_id),
            match r {
                None => !holds_pod(old(self).resident(), pod_id) && *final(self) == *old(self),
                Some(p) => exists|i: int|
                    0 <= i < old(self).resident().len() && old(self).resident()[i].id == pod_id
                        && p == old(self).resident()[i].detached() && final(self).resident()
                        == old(self).resident().remove(i) && final(self).cpu_allocated == old(
                        self,
                    ).cpu_allocated - old(self).resident()[i].cpu_share()
                        && final(self).memory_allocated == old(self).memory_allocated - old(
                        self,
                    ).resident()[i].memory_share() && final(self).cpu_used == old(self).cpu_used
                        - old(self).resident()[i].cpu && final(self).memory_used == old(
                        self,
                    ).memory_used - old(self).resident()[i].memory,
            },
    {
        match self.find_pod(pod_id) {
            None => None,
            Some(i) => {
                let ghost s = self.resident();
                proof {
                    lemma_sum_remove(s, i as int, cpu_share_of());
                    lemma_sum_remove(s, i as int, memory_share_of());
                    lemma_sum_remove(s, i as int, cpu_of());
                    lemma_sum_remove(s, i as int, memory_of());
                    lemma_sum_nonneg(s.remove(i as int), cpu_share_of());
                    lemma_sum_nonneg(s.remove(i as int), memory_share_of());
                    lemma_sum_nonneg(s.remove(i as int), cpu_of());
                    lemma_sum_nonneg(s.remove(i as int), memory_of());
                }
                let mut pod = self.pods.remove(i);
                self.cpu_used = self.cpu_used - pod.cpu;
                self.memory_used = self.memory_used - pod.memory;
                self.cpu_allocated = self.cpu_allocated - max_u64(pod.cpu, pod.requested_cpu);
                self.memory_allocated = self.memory_allocated - max_u64(
                    pod.memory,
                    pod.requested_memory,
                );
                pod.cpu = 0;
                pod.memory = 0;
                proof {
                    let t = self.resident();
                    assert forall|a: int, b: int|
                        0 <= a < t.len() && 0 <= b < t.len() && a != b implies t[a].id
                        != t[b].id by {
                        let a0 = if a < i { a } else { a + 1 };
                        let b0 = if b < i { b } else { b + 1 };
                        assert(t[a] == s[a0]);
                        assert(t[b] == s[b0]);
                    }
                    assert forall|k: int| 0 <= k < t.len() implies (#[trigger] t[k]).wf() by {
                        let k0 = if k < i { k } else { k + 1 };
                        assert(t[k] == s[k0]);
                    }
                    assert(!holds_pod(t, pod_id)) by {
                        if holds_pod(t, pod_id) {
                            let k = choose|k: int| 0 <= k < t.len() && t[k].id == pod_id;
                            let k0 = if k < i { k } else { k + 1 };
                            assert(t[k] == s[k0]);
                        }
                    }
                    assert(pod == s[i as int].detached());
                }
                Some(pod)
            },
        }
    }

    /// Whether a pod with these requests fits, without pushing the node's memory
    /// to `threshold` per mille of its total.
    pub fn can_place_pod(&self, requested_cpu: u64, requested_memory: u64, threshold: u64) -> (r:
        bool)
        requires
            self.wf(),
            requested_memory <= MAX_RESOURCE,
            threshold <= 1000,
        ensures
            r == (self.free_cpu() >= requested_cpu && self.free_memory() >= requested_memory
                && !self.under_pressure(self.memory_allocated + requested_memory, threshold)),
    {
        assert(threshold * self.memory_total <= 1000 * MAX_RESOURCE) by (nonlinear_arith)
            requires
                threshold <= 1000,
                self.memory_total <= MAX_RESOURCE,
        ;
        self.get_free_cpu() >= requested_cpu && self.get_free_memory() >= requested_memory && !((
        self.memory_allocated + requested_memory) * 1000 >= threshold * self.memory_total)
    }

    /// The CPU a resident pod gets on reconciliation: it follows its demand (capped by
    /// its limit) down freely, and up by at most the free CPU.
    pub open spec fn reconciled_cpu(&self, p: Pod, now: u64, cnt_replicas: u64) -> int {
        let wanted = min_of(p.wanted_cpu(now, cnt_replicas), p.limit_cpu as int);
        if wanted >= p.cpu {
            p.cpu + min_of(wanted - p.cpu, self.free_cpu())
        } else {
            wanted
        }
    }

    /// Whether reconciliation evicts a resident pod: its new memory demand exceeds what
    /// it holds plus the free memory.
    pub open spec fn must_evict(&self, p: Pod, now: u64, cnt_replicas: u64) -> bool {
        Self::reconciled_memory(p, now, cnt_replicas) > p.memory_share() + self.free_memory()
    }

    /// The overuse counter after seeing `p`: one more when its demand exceeds its request.
    pub open spec fn overuse_after(&self, p: Pod, now: u64, cnt_replicas: u64) -> u64 {
        if Self::reconciled_memory(p, now, cnt_replicas) > p.requested_memory
            && self.memory_overuse_count < u64::MAX {
            (self.memory_overuse_count + 1) as u64
        } else {
            self.memory_overuse_count
        }
    }

    /// Brings the pod at index `i` in line with its load models at time `now`, or
    /// reports that it must be evicted (then nothing but the overuse counter changes).
    pub fn reconcile_pod(&mut self, i: usize, now: u64, cnt_replicas: u64) -> (evict: bool)
        requires
            old(self).wf(),
            i < old(self).resident().len(),
        ensures
            final(self).wf(),
            final(self).id == old(self).id,
            final(self).state == old(self).state,
            final(self).cpu_total == old(self).cpu_total,
            final(self).memory_total == old(self).memory_total,
            final(self).memory_overuse_count == old(self).overuse_after(
                old(self).resident()[i as int],
                now,
                cnt_replicas,
            ),
            evict == old(self).must_evict(old(self).resident()[i as int], now, cnt_replicas),
            evict ==> final(self).resident() == old(self).resident() && final(self).loads() == old(
                self,
            ).loads(),
            !evict ==> final(self).resident() == old(self).resident().update(
                i as int,
                Pod {
                    memory: Node::reconciled_memory(
                        old(self).resident()[i as int],
                        now,
                        cnt_replicas,
                    ) as u64,
                    cpu: old(self).reconciled_cpu(
                        old(self).resident()[i as int],
                        now,
                        cnt_replicas,
                    ) as u64,
                    ..old(self).resident()[i as int]
                },
            ),
    {
        let ghost s = self.resident();
        let wanted_memory = min_u64(
            self.pods[i].get_wanted_memory(now, cnt_replicas),
            self.pods[i].limit_memory,
        );
        if wanted_memory > self.pods[i].requested_memory && self.memory_overuse_count < u64::MAX {
            self.memory_overuse_count = self.memory_overuse_count + 1;
        }
        let free_memory = self.get_free_memory();
        let old_memory_share = max_u64(self.pods[i].memory, self.pods[i].requested_memory);
        if wanted_memory > old_memory_share + free_memory {
            return true;
        }
        let wanted_cpu = min_u64(
            self.pods[i].get_wanted_cpu(now, cnt_replicas),
            self.pods[i].limit_cpu,
        );
        let free_cpu = self.get_free_cpu();
        let mut pod = self.pods.remove(i);
        let new_cpu = if wanted_cpu >= pod.cpu {
            pod.cpu + min_u64(wanted_cpu - pod.cpu, free_cpu)
        } else {
            wanted_cpu
        };
        proof {
            lemma_share_within_sum(s, i as int);
            lemma_used_within_allocated(s);
        }
        self.memory_allocated = self.memory_allocated - old_memory_share + max_u64(
            wanted_memory,
            pod.requested_memory,
        );
        self.memory_used = self.memory_used - pod.memory + wanted_memory;
        self.cpu_allocated = self.cpu_allocated - max_u64(pod.cpu, pod.requested_cpu) + max_u64(
            new_cpu,
            pod.requested_cpu,
        );
        self.cpu_used = self.cpu_used - pod.cpu + new_cpu;
        pod.memory = wanted_memory;
        pod.cpu = new_cpu;
        let ghost np = pod;
        self.pods.insert(i, pod);
        proof {
            let t = self.resident();
            assert(t =~= s.update(i as int, np));
            lemma_sum_update(s, i as int, np, cpu_share_of());
            lemma_sum_update(s, i as int, np, memory_share_of());
            lemma_sum_update(s, i as int, np, cpu_of());
            lemma_sum_update(s, i as int, np, memory_of());
            assert forall|a: int, b: int|
                0 <= a < t.len() && 0 <= b < t.len() && a != b implies t[a].id != t[b].id by {
                assert(t[a].id == s[a].id);
                assert(t[b].id == s[b].id);
            }
            assert forall|k: int| 0 <= k < t.len() implies (#[trigger] t[k]).wf() by {
                if k != i {
                    assert(t[k] == s[k]);
                }
            }
        }
        false
    }

    /// Reconciles every resident pod with its load models at time `now`, then evicts
    /// the pods whose memory no longer fits; the evicted pods are returned, detached.
    pub fn update_pods_resources(&mut self, now: u64, deployments: &Vec<crate::deployment::Deployment>) -> (evicted: Vec<Pod>)
        requires
            old(self).wf(),
        ensures
            final(self).wf(),
            final(self).id == old(self).id,
            final(self).state == old(self).state,
            final(self).cpu_total == old(self).cpu_total,
            final(self).memory_total == old(self).memory_total,
            final(self).memory_overuse_count >= old(self).memory_overuse_count,
            forall|k: int| 0 <= k < evicted@.len() ==> holds_pod(old(self).resident(), #[trigger] evicted@[k].id)
                && !holds_pod(final(self).resident(), evicted@[k].id) && evicted@[k].wf(),
            forall|k: int| 0 <= k < evicted@.len() ==> (#[trigger] evicted@[k]).wf(),
            forall|k: int|
                0 <= k < old(self).resident().len() ==> holds_pod(final(self).resident(), #[trigger] old(self).resident()[k].id)
                    || exists|e: int| 0 <= e < evicted@.len() && evicted@[e].id == old(self).resident()[k].id,
            forall|k: int| 0 <= k < final(self).resident().len() ==> holds_pod(old(self).resident(), #[trigger] final(self).resident()[k].id),
    {
        let ghost s0 = self.resident();
        let mut to_evict: Vec<u64> = Vec::new();
        let mut i: usize = 0;
        while i < self.pods.len()
            invariant
                self.wf(),
                self.id == old(self).id,
                self.state == old(self).state,
                self.cpu_total == old(self).cpu_total,
                self.memory_total == old(self).memory_total,
                self.memory_overuse_count >= old(self).memory_overuse_count,
                i <= self.resident().len(),
                self.resident().len() == s0.len(),
                forall|k: int| 0 <= k < s0.len() ==> #[trigger] self.resident()[k].id == s0[k].id,
                forall|k: int| 0 <= k < to_evict@.len() ==> holds_pod(s0, #[trigger] to_evict@[k]),
            decreases self.resident().len() - i,
        {
            let cnt = crate::deployment::get_replica_count(deployments, self.pods[i].deployment_id);
            let ghost before = self.resident();
            let evict = self.reconcile_pod(i, now, cnt);
            if evict {
                proof {
                    assert(s0[i as int].id == before[i as int].id);
                }
                to_evict.push(before_id(&self.pods, i));
                proof {
                    assert(to_evict@.last() == s0[i as int].id);
                }
            }
            proof {
                assert forall|k: int| 0 <= k < s0.len() implies #[trigger] self.resident()[k].id == s0[k].id by {
                    assert(self.resident()[k].id == before[k].id);
                }
            }
            i += 1;
        }
        let mut evicted: Vec<Pod> = Vec::new();
        proof {
            assert forall|k: int| 0 <= k < s0.len() implies holds_pod(self.resident(), #[trigger] s0[k].id) by {
                assert(self.resident()[k].id == s0[k].id);
            }
        }
        let mut j: usize = 0;
        while j < to_evict.len()
            invariant
                self.wf(),
                self.id == old(self).id,
                self.state == old(self).state,
                self.cpu_total == old(self).cpu_total,
                self.memory_total == old(self).memory_total,
                self.memory_overuse_count >= old(self).memory_overuse_count,
                j <= to_evict@.len(),
                forall|k: int| 0 <= k < to_evict@.len() ==> holds_pod(s0, #[trigger] to_evict@[k]),
                forall|k: int| 0 <= k < evicted@.len() ==> holds_pod(s0, #[trigger] evicted@[k].id)
                    && !holds_pod(self.resident(), evicted@[k].id) && evicted@[k].wf(),
                forall|k: int| 0 <= k < self.resident().len() ==> holds_pod(s0, #[trigger] self.resident()[k].id),
                forall|k: int|
                    0 <= k < s0.len() ==> holds_pod(self.resident(), #[trigger] s0[k].id)
                        || exists|e: int| 0 <= e < evicted@.len() && evicted@[e].id == s0[k].id,
            decreases to_evict@.len() - j,
        {
            let ghost before = self.resident();
            let ghost ev_before = evicted@;
            let removed = self.remove_pod(to_evict[j]);
            match removed {
                Some(p) => {
                    evicted.push(p);
                },
                None => {},
            }
            proof {
                assert forall|k: int| 0 <= k < evicted@.len() implies holds_pod(s0, #[trigger] evicted@[k].id)
                    && !holds_pod(self.resident(), evicted@[k].id) && evicted@[k].wf() by {
                    if k < evicted@.len() - 1 || removed.is_none() {
                        if holds_pod(self.resident(), evicted@[k].id) {
                            let x = choose|x: int| 0 <= x < self.resident().len() && self.resident()[x].id == evicted@[k].id;
                            let i0 = choose|i0: int| 0 <= i0 < before.len() && before[i0].id == to_evict@[j as int] && self.resident() == before.remove(i0);
                            let x0 = if x < i0 { x } else { x + 1 };
                            assert(self.resident()[x] == before[x0]);
                        }
                    } else {
                        let i0 = choose|i0: int| 0 <= i0 < before.len() && before[i0].id == to_evict@[j as int] && removed == Some(before[i0].detached());
                        assert(evicted@[k].id == to_evict@[j as int]);
                        assert(before[i0].wf());
                    }
                }
                assert forall|k: int| 0 <= k < s0.len() implies holds_pod(self.resident(), #[trigger] s0[k].id)
                    || exists|e: int| 0 <= e < evicted@.len() && evicted@[e].id == s0[k].id by {
                    let id = s0[k].id;
                    if exists|e: int| 0 <= e < ev_before.len() && ev_before[e].id == id {
                        let e = choose|e: int| 0 <= e < ev_before.len() && ev_before[e].id == id;
                        assert(evicted@[e] == ev_before[e]);
                        assert(0 <= e < evicted@.len() && evicted@[e].id == id);
                    } else {
                        assert(holds_pod(before, id));
                        if removed.is_some() {
                            let i0 = choose|i0: int| 0 <= i0 < before.len() && before[i0].id == to_evict@[j as int] && self.resident() == before.remove(i0)
                                && removed == Some(before[i0].detached());
                            if id == to_evict@[j as int] {
                                assert(evicted@[evicted@.len() - 1].id == id);
                            } else {
                                let x = choose|x: int| 0 <= x < before.len() && before[x].id == id;
                                assert(x != i0);
                                let x1 = if x < i0 { x } else { x - 1 };
                                assert(self.resident()[x1] == before[x]);
                            }
                        } else {
                            assert(self.resident() == before);
                        }
                    }
                }
                assert forall|k: int| 0 <= k < self.resident().len() implies holds_pod(s0, #[trigger] self.resident()[k].id) by {
                    if removed.is_some() {
                        let i0 = choose|i0: int| 0 <= i0 < before.len() && before[i0].id == to_evict@[j as int] && self.resident() == before.remove(i0);
                        let k0 = if k < i0 { k } else { k + 1 };
                        assert(self.resident()[k] == before[k0]);
                    }
                }
            }
            j += 1;
        }
        proof {
            assert forall|k: int| 0 <= k < s0.len() implies holds_pod(s0, #[trigger] s0[k].id) by {}
            assert forall|k: int| 0 <= k < evicted@.len() implies (#[trigger] evicted@[k]).wf() by {
                assert(holds_pod(s0, evicted@[k].id));
            }
        }
        evicted
    }

    /// Empties the node: every resident pod leaves, detached, and all loads drop to zero.
    pub fn drain(&mut self) -> (r: Vec<Pod>)
        requires
            old(self).wf(),
        ensures
            final(self).wf(),
            final(self).id == old(self).id,
            final(self).state == old(self).state,
            final(self).cpu_total == old(self).cpu_total,
            final(self).memory_total == old(self).memory_total,
            final(self).memory_overuse_count == old(self).memory_overuse_count,
            final(self).resident().len() == 0,
            final(self).loads() == (0int, 0int, 0int, 0int),
            r@.len() == old(self).resident().len(),
            forall|k: int| 0 <= k < r@.len() ==> r@[k] == old(self).resident()[k].detached(),
    {
        let mut out: Vec<Pod> = Vec::new();
        let mut taken = Vec::new();
        std::mem::swap(&mut taken, &mut self.pods);
        let ghost s = taken@;
        while taken.len() > 0
            invariant
                out@.len() + taken@.len() == s.len(),
                taken@ == s.subrange(out@.len() as int, s.len() as int),
                forall|k: int| 0 <= k < out@.len() ==> out@[k] == s[k].detached(),
            decreases taken@.len(),
        {
            let mut p = taken.remove(0);
            p.cpu = 0;
            p.memory = 0;
            out.push(p);
            proof {
                assert(taken@ =~= s.subrange(out@.len() as int, s.len() as int));
            }
        }
        self.cpu_allocated = 0;
        self.memory_allocated = 0;
        self.cpu_used = 0;
        self.memory_used = 0;
        out
    }
}

fn before_id(pods: &Vec<Pod>, i: usize) -> (r: u64)
    requires
        i < pods@.len(),
    ensures
        r == pods@[i as int].id,
{
    pods[i].id
}

/// A pod's share is part of the node's total.
pub proof fn lemma_share_within_sum(s: Seq<Pod>, i: int)
    requires
        0 <= i < s.len(),
    ensures
        s[i].cpu_share() <= sum_of(s, cpu_share_of()),
        s[i].memory_share() <= sum_of(s, memory_share_of()),
        s[i].cpu <= sum_of(s, cpu_of()),
        s[i].memory <= sum_of(s, memory_of()),
{
    lemma_sum_remove(s, i, cpu_share_of());
    lemma_sum_remove(s, i, memory_share_of());
    lemma_sum_remove(s, i, cpu_of());
    lemma_sum_remove(s, i, memory_of());
    lemma_sum_nonneg(s.remove(i), cpu_share_of());
    lemma_sum_nonneg(s.remove(i), memory_share_of());
    lemma_sum_nonneg(s.remove(i), cpu_of());
    lemma_sum_nonneg(s.remove(i), memory_of());
}

pub proof fn lemma_sum_nonneg(s: Seq<Pod>, f: spec_fn(Pod) -> int)
    requires
        forall|p: Pod| #[trigger] f(p) >= 0,
    ensures
        sum_of(s, f) >= 0,
    decreases s.len(),
{
    if s.len() > 0 {
        lemma_sum_nonneg(s.drop_last(), f);
    }
}

/// Use never exceeds allocation, pod by pod and so in sum.
pub proof fn lemma_used_within_allocated(s: Seq<Pod>)
    ensures
        sum_of(s, cpu_of()) <= sum_of(s, cpu_share_of()),
        sum_of(s, memory_of()) <= sum_of(s, memory_share_of()),
    decreases s.len(),
{
    if s.len() > 0 {
        lemma_used_within_allocated(s.drop_last());
    }
}

/// Each resident pod holds `max(cpu, requested_cpu)` of the node's allocated CPU (and
/// likewise for memory), and the allocations and uses are exactly the sums over the
/// resident pods.
pub proof fn lemma_loads_are_sums(n: Node)
    requires
        n.wf(),
    ensures
        n.cpu_allocated == sum_of(n.resident(), cpu_share_of()),
        n.memory_allocated == sum_of(n.resident(), memory_share_of()),
        n.cpu_used == sum_of(n.resident(), cpu_of()),
        n.memory_used == sum_of(n.resident(), memory_of()),
        forall|i: int|
            0 <= i < n.resident().len() ==> (#[trigger] n.resident()[i]).cpu_share() <= n.cpu_allocated
                && n.resident()[i].memory_share() <= n.memory_allocated,
{
    assert forall|i: int| 0 <= i < n.resident().len() implies (#[trigger] n.resident()[i]).cpu_share()
        <= n.cpu_allocated && n.resident()[i].memory_share() <= n.memory_allocated by {
        lemma_share_within_sum(n.resident(), i);
    }
}

/// A failed node holds no pod and no load.
pub proof fn lemma_failed_node_is_empty(n: Node)
    requires
        n.wf(),
        n.state == NodeState::Failed,
    ensures
        n.resident().len() == 0,
        n.loads() == (0int, 0int, 0int, 0int),
{
}

/// Placing a pod on a node and then taking that pod off again gives the node back the
/// loads it had before the placement.
pub proof fn lemma_add_then_remove_restores_loads(n0: Node, n1: Node, n2: Node, placed: Pod, i: int)
    requires
        n0.wf(),
        n1.wf(),
        n2.wf(),
        !holds_pod(n0.resident(), placed.id),
        n1.resident() == n0.resident().push(placed),
        0 <= i < n1.resident().len(),
        n1.resident()[i].id == placed.id,
        n2.resident() == n1.resident().remove(i),
    ensures
        n2.loads() == n0.loads(),
{
    let s0 = n0.resident();
    if i < s0.len() {
        assert(n1.resident()[i] == s0[i]);
        assert(holds_pod(s0, placed.id));
    }
    assert(i == s0.len());
    assert(n2.resident() =~= s0);
}

/// A node that crashed (emptied, loads zeroed) and then recovered offers its whole
/// capacity again.
pub proof fn lemma_crash_then_recover_restores_capacity(before: Node, crashed: Node, recovered: Node)
    requires
        before.wf(),
        crashed.wf(),
        recovered.wf(),
        crashed.id == before.id,
        crashed.cpu_total == before.cpu_total,
        crashed.memory_total == before.memory_total,
        crashed.state == NodeState::Failed,
        recovered == (Node { state: NodeState::Working, ..crashed }),
    ensures
        recovered.id == before.id,
        recovered.state == NodeState::Working,
        recovered.free_cpu() == before.cpu_total,
        recovered.free_memory() == before.memory_total,
        recovered.resident().len() == 0,
{
}

} // verus!

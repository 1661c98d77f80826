//! The metrics server: per-pod usage histograms fed by periodic snapshots.
use vstd::prelude::*;
use crate::histogram::{Histogram, MAX_WEIGHT};
use crate::node::Node;
use crate::pod::Pod;
use crate::scheduler_algorithm::nodes_wf;

verus! {

#[derive(Clone, Copy)]
pub struct PodSnapshot {
    pub cpu: u64,
    pub memory: u64,
    pub snapshot_time: u64,
}

pub struct PodStatistic {
    pub pod_id: u64,
    pub cpu_distribution: Histogram,
    pub memory_distribution: Histogram,
    pub last_snapshot: PodSnapshot,
}

impl PodStatistic {
    pub open spec fn wf(&self) -> bool {
        &&& self.cpu_distribution.wf()
        &&& self.memory_distribution.wf()
        &&& self.last_snapshot.cpu <= crate::load_model::MAX_RESOURCE
        &&& self.last_snapshot.memory <= crate::load_model::MAX_RESOURCE
    }
}

/// Index of the statistic of pod `id` among `s`, if any.
pub open spec fn has_statistic(s: Seq<PodStatistic>, id: u64) -> bool {
    exists|i: int| 0 <= i < s.len() && s[i].pod_id == id
}

/// Whether pod `id` has a statistic whose last snapshot was taken at `now`.
pub open spec fn sampled_at(s: Seq<PodStatistic>, id: u64, now: u64) -> bool {
    exists|i: int| 0 <= i < s.len() && s[i].pod_id == id && s[i].last_snapshot.snapshot_time == now
}

pub struct MetricsServer {
    pub statistics: Vec<PodStatistic>,
}

impl MetricsServer {
    pub open spec fn stats(&self) -> Seq<PodStatistic> {
        self.statistics@
    }

    pub open spec fn wf(&self) -> bool {
        forall|i: int| 0 <= i < self.stats().len() ==> (#[trigger] self.stats()[i]).wf()
    }

    pub fn new() -> (r: Self)
        ensures
            r.wf(),
            r.stats().len() == 0,
    {
        Self { statistics: Vec::new() }
    }

    fn find(&self, pod_id: u64) -> (r: Option<usize>)
        ensures
            match r {
                None => !has_statistic(self.stats(), pod_id),
                Some(i) => i < self.stats().len() && self.stats()[i as int].pod_id == pod_id,
            },
    {
        let mut i: usize = 0;
        while i < self.statistics.len()
            invariant
                i <= self.stats().len(),
                forall|k: int| 0 <= k < i ==> self.stats()[k].pod_id != pod_id,
            decreases self.stats().len() - i,
        {
            if self.statistics[i].pod_id == pod_id {
                return Some(i);
            }
            i += 1;
        }
        None
    }

    /// The histograms and last snapshot of pod `pod_id`, if it was ever sampled.
    pub fn get_pod_statistics(&self, pod_id: u64) -> (r: Option<&PodStatistic>)
        requires
            self.wf(),
        ensures
            r.is_none() == !has_statistic(self.stats(), pod_id),
            r matches Some(s) ==> s.pod_id == pod_id && s.wf(),
    {
        match self.find(pod_id) {
            None => None,
            Some(i) => Some(&self.statistics[i]),
        }
    }

    /// Drops everything recorded about pod `pod_id`.
    pub fn clear_pod_statistics(&mut self, pod_id: u64)
        requires
            old(self).wf(),
        ensures
            final(self).wf(),
            !has_statistic(final(self).stats(), pod_id),
            forall|id: u64| id != pod_id && has_statistic(old(self).stats(), id) ==> has_statistic(final(self).stats(), id),
    {
        let mut kept: Vec<PodStatistic> = Vec::new();
        let mut all: Vec<PodStatistic> = Vec::new();
        std::mem::swap(&mut all, &mut self.statistics);
        let ghost s = all@;
        proof {
            assert(s == old(self).stats());
            assert forall|i: int| 0 <= i < all@.len() implies (#[trigger] all@[i]).wf() by {
                assert(old(self).stats()[i].wf());
            }
        }
        while all.len() > 0
            invariant
                forall|i: int| 0 <= i < kept@.len() ==> (#[trigger] kept@[i]).wf(),
                forall|i: int| 0 <= i < all@.len() ==> (#[trigger] all@[i]).wf(),
                !has_statistic(kept@, pod_id),
                forall|id: u64| id != pod_id && has_statistic(s, id) ==> has_statistic(kept@, id) || has_statistic(all@, id),
            decreases all@.len(),
        {
            let ghost before_all = all@;
            let ghost before_kept = kept@;
            let st = all.remove(0);
            proof {
                assert forall|i: int| 0 <= i < all@.len() implies (#[trigger] all@[i]).wf() by {
                    assert(all@[i] == before_all[i + 1]);
                }
            }
            if st.pod_id != pod_id {
                kept.push(st);
            }
            proof {
                assert forall|i: int| 0 <= i < kept@.len() implies (#[trigger] kept@[i]).wf() by {
                    if i < before_kept.len() {
                        assert(kept@[i] == before_kept[i]);
                    }
                }
                if has_statistic(kept@, pod_id) {
                    let k = choose|k: int| 0 <= k < kept@.len() && kept@[k].pod_id == pod_id;
                    if k < before_kept.len() {
                        assert(kept@[k] == before_kept[k]);
                    }
                }
                assert forall|id: u64| id != pod_id && has_statistic(s, id) implies has_statistic(kept@, id) || has_statistic(all@, id) by {
                    if has_statistic(before_kept, id) {
                        let k = choose|k: int| 0 <= k < before_kept.len() && before_kept[k].pod_id == id;
                        assert(kept@[k] == before_kept[k]);
                    } else if has_statistic(before_all, id) {
                        let k = choose|k: int| 0 <= k < before_all.len() && before_all[k].pod_id == id;
                        if k == 0 {
                            assert(kept@.last().pod_id == id);
                        } else {
                            assert(all@[k - 1] == before_all[k]);
                        }
                    }
                }
            }
        }
        self.statistics = kept;
    }

    /// Records one sample of `pod`'s current use at time `now`.
    pub fn record(&mut self, pod: &Pod, now: u64)
        requires
            old(self).wf(),
            pod.wf(),
        ensures
            final(self).wf(),
            exists|i: int|
                0 <= i < final(self).stats().len() && final(self).stats()[i].pod_id == pod.id
                    && final(self).stats()[i].last_snapshot == (PodSnapshot {
                    cpu: pod.cpu,
                    memory: pod.memory,
                    snapshot_time: now,
                }),
            forall|id: u64| has_statistic(old(self).stats(), id) ==> has_statistic(final(self).stats(), id),
            final(self).stats().len() >= old(self).stats().len(),
            forall|j: int|
                0 <= j < old(self).stats().len() && old(self).stats()[j].pod_id != pod.id
                    ==> final(self).stats()[j] == #[trigger] old(self).stats()[j],
    {
        let snapshot = PodSnapshot { cpu: pod.cpu, memory: pod.memory, snapshot_time: now };
        let ghost s = self.stats();
        let i = match self.find(pod.id) {
            Some(i) => i,
            None => {
                self.statistics.push(
                    PodStatistic {
                        pod_id: pod.id,
                        cpu_distribution: Histogram::new(pod.limit_cpu),
                        memory_distribution: Histogram::new(pod.limit_memory),
                        last_snapshot: snapshot,
                    },
                );
                proof {
                    assert forall|k: int| 0 <= k < self.stats().len() implies (#[trigger] self.stats()[k]).wf() by {
                        if k < s.len() {
                            assert(self.stats()[k] == s[k]);
                        }
                    }
                    assert forall|id: u64| has_statistic(s, id) implies has_statistic(self.stats(), id) by {
                        let k = choose|k: int| 0 <= k < s.len() && s[k].pod_id == id;
                        assert(self.stats()[k] == s[k]);
                    }
                }
                self.statistics.len() - 1
            },
        };
        let ghost s1 = self.stats();
        let mut st = self.statistics.remove(i);
        if st.cpu_distribution.total_weight < MAX_WEIGHT {
            st.cpu_distribution.add_sample(pod.cpu, 1, now);
        }
        if st.memory_distribution.total_weight < MAX_WEIGHT {
            st.memory_distribution.add_sample(pod.memory, 1, now);
        }
        st.last_snapshot = snapshot;
        self.statistics.insert(i, st);
        proof {
            assert(self.stats() =~= s1.update(i as int, self.stats()[i as int]));
            assert forall|k: int| 0 <= k < self.stats().len() implies (#[trigger] self.stats()[k]).wf() by {
                if k != i {
                    assert(self.stats()[k] == s1[k]);
                }
            }
            assert forall|id: u64| has_statistic(s, id) implies has_statistic(self.stats(), id) by {
                let k = choose|k: int| 0 <= k < s1.len() && s1[k].pod_id == id;
                assert(self.stats()[k].pod_id == s1[k].pod_id);
            }
        }
    }

    /// Samples every pod resident on the given (working) nodes at time `now`.
    pub fn make_snapshot(&mut self, nodes: &Vec<Node>, now: u64)
        requires
            old(self).wf(),
            nodes_wf(nodes@),
        ensures
            final(self).wf(),
            forall|k: int, j: int|
                0 <= k < nodes@.len() && 0 <= j < nodes@[k].resident().len() ==> sampled_at(
                    final(self).stats(),
                    #[trigger] nodes@[k].resident()[j].id,
                    now,
                ),
    {
        let mut k: usize = 0;
        while k < nodes.len()
            invariant
                self.wf(),
                nodes_wf(nodes@),
                k <= nodes@.len(),
                forall|a: int, j: int|
                    0 <= a < k && 0 <= j < nodes@[a].resident().len() ==> sampled_at(
                        self.stats(),
                        #[trigger] nodes@[a].resident()[j].id,
                        now,
                    ),
            decreases nodes@.len() - k,
        {
            let node = &nodes[k];
            assert(node.wf());
            let mut j: usize = 0;
            while j < node.pods.len()
                invariant
                    self.wf(),
                    nodes_wf(nodes@),
                    k < nodes@.len(),
                    *node == nodes@[k as int],
                    node.wf(),
                    j <= node.resident().len(),
                    forall|a: int, b: int|
                        0 <= a < k && 0 <= b < nodes@[a].resident().len() ==> sampled_at(
                            self.stats(),
                            #[trigger] nodes@[a].resident()[b].id,
                            now,
                        ),
                    forall|b: int|
                        0 <= b < j ==> sampled_at(self.stats(), #[trigger] node.resident()[b].id, now),
                decreases node.resident().len() - j,
            {
                let pod = &node.pods[j];
                assert(pod.wf());
                let ghost before = self.stats();
                self.record(pod, now);
                proof {
                    assert forall|id: u64| sampled_at(before, id, now) implies sampled_at(self.stats(), id, now) by {
                        let x = choose|x: int| 0 <= x < before.len() && before[x].pod_id == id && before[x].last_snapshot.snapshot_time == now;
                        if before[x].pod_id != pod.id {
                            assert(self.stats()[x] == before[x]);
                        }
                    }
                }
                j += 1;
            }
            k += 1;
        }
    }
}

} // verus!

//! The API server's state of record: nodes, pod placements and deployments.
use vstd::prelude::*;
use crate::deployment::Deployment;
use crate::load_model::MAX_RESOURCE;
use crate::node::{Node, NodeState, first_pod_with_id};
use crate::pod::Pod;

verus! {

/// A per-node reading summed or averaged over the cluster.
#[derive(Clone, Copy)]
pub enum Reading {
    CpuAllocated,
    MemoryAllocated,
    CpuUsed,
    MemoryUsed,
    CpuTotal,
    MemoryTotal,
}

pub open spec fn reading_of(n: Node, r: Reading) -> int {
    match r {
        Reading::CpuAllocated => n.cpu_allocated as int,
        Reading::MemoryAllocated => n.memory_allocated as int,
        Reading::CpuUsed => n.cpu_used as int,
        Reading::MemoryUsed => n.memory_used as int,
        Reading::CpuTotal => n.cpu_total as int,
        Reading::MemoryTotal => n.memory_total as int,
    }
}

pub open spec fn sum_reading(s: Seq<Node>, r: Reading) -> int
    decreases s.len(),
{
    if s.len() == 0 {
        0
    } else {
        sum_reading(s.drop_last(), r) + reading_of(s.last(), r)
    }
}

/// The average of a reading over `s`, rounded down; zero for no node.
pub open spec fn average_reading(s: Seq<Node>, r: Reading) -> int {
    if s.len() == 0 {
        0
    } else {
        sum_reading(s, r) / (s.len() as int)
    }
}

/// `part / whole` in millionths; zero for an empty whole.
pub open spec fn per_million(part: int, whole: int) -> int {
    if whole <= 0 {
        0
    } else {
        part * 1_000_000 / whole
    }
}

pub open spec fn all_in_state(s: Seq<Node>, state: NodeState) -> bool {
    forall|i: int| 0 <= i < s.len() ==> (#[trigger] s[i]).wf() && s[i].state == state
}

/// Index of the first node with id `id` among `s`, looking from `i` on.
pub open spec fn first_node_with_id(s: Seq<Node>, id: u64, i: int) -> Option<usize>
    decreases s.len() - i,
{
    if i < 0 || i >= s.len() {
        None
    } else if s[i].id == id {
        Some(i as usize)
    } else {
        first_node_with_id(s, id, i + 1)
    }
}

/// The node a pod was last placed on, according to the placement records.
pub open spec fn placed_on(m: Seq<(u64, u64)>, pod_id: u64) -> Option<u64>
    decreases m.len(),
{
    if m.len() == 0 {
        None
    } else if m.last().0 == pod_id {
        Some(m.last().1)
    } else {
        placed_on(m.drop_last(), pod_id)
    }
}

/// What replica `pod_id` uses now of CPU (or memory): its use on the working node the
/// records place it on, or nothing when it is not resident there.
pub open spec fn replica_use(working: Seq<Node>, m: Seq<(u64, u64)>, pod_id: u64, cpu: bool) -> int {
    match placed_on(m, pod_id) {
        None => 0,
        Some(node_id) => match first_node_with_id(working, node_id, 0) {
            None => 0,
            Some(i) => match first_pod_with_id(working[i as int].resident(), pod_id, 0) {
                None => 0,
                Some(j) => if cpu {
                    working[i as int].resident()[j as int].cpu as int
                } else {
                    working[i as int].resident()[j as int].memory as int
                },
            },
        },
    }
}

/// The summed use of the replicas `ids`.
pub open spec fn replicas_use(working: Seq<Node>, m: Seq<(u64, u64)>, ids: Seq<u64>, cpu: bool) -> int
    decreases ids.len(),
{
    if ids.len() == 0 {
        0
    } else {
        replicas_use(working, m, ids.drop_last(), cpu) + replica_use(working, m, ids.last(), cpu)
    }
}

/// How many of the pods `ids` have a placement record.
pub open spec fn placed_count(m: Seq<(u64, u64)>, ids: Seq<u64>) -> int
    decreases ids.len(),
{
    if ids.len() == 0 {
        0
    } else {
        placed_count(m, ids.drop_last()) + if placed_on(m, ids.last()) is Some {
            1int
        } else {
            0int
        }
    }
}

/// The memory overuse events counted by the nodes of `s`.
pub open spec fn overuse_sum(s: Seq<Node>) -> int
    decreases s.len(),
{
    if s.len() == 0 {
        0
    } else {
        overuse_sum(s.drop_last()) + s.last().memory_overuse_count
    }
}

pub struct APIServer {
    pub working_nodes: Vec<Node>,
    pub failed_nodes: Vec<Node>,
    /// Placement records: pod id and node id.
    pub pod_to_node_map: Vec<(u64, u64)>,
    pub deployments: Vec<Deployment>,
    /// The replica pod ids of each deployment, at the same index.
    pub deployment_to_replicas: Vec<Vec<u64>>,
    pub pod_migration_count: u64,
    pub pod_counter: u64,
    pub deployment_counter: u64,
}

impl APIServer {
    /// The utilization of deployment `d`: its replicas' average use over the template's
    /// request, in millionths (zero without replicas or request).
    pub open spec fn deployment_utilization(&self, d: int, cpu: bool) -> int {
        let ids = self.deployment_to_replicas@[d]@;
        let requested = if cpu {
            self.deployments@[d].pod_template.requested_cpu
        } else {
            self.deployments@[d].pod_template.requested_memory
        };
        if ids.len() == 0 || requested == 0 {
            0
        } else {
            replicas_use(self.working(), self.pod_to_node_map@, ids, cpu) * 1_000_000 / (ids.len()
                * requested)
        }
    }

    /// The utilizations of the first `n` deployments, summed.
    pub open spec fn utilization_sum(&self, n: int, cpu: bool) -> int
        decreases n,
    {
        if n <= 0 {
            0
        } else {
            self.utilization_sum(n - 1, cpu) + self.deployment_utilization(n - 1, cpu)
        }
    }

    pub open spec fn working(&self) -> Seq<Node> {
        self.working_nodes@
    }

    pub open spec fn failed(&self) -> Seq<Node> {
        self.failed_nodes@
    }

    /// Every deployment's replica list holds exactly its declared replica count.
    pub open spec fn replicas_match(&self) -> bool {
        &&& self.deployment_to_replicas@.len() == self.deployments@.len()
        &&& forall|i: int|
            0 <= i < self.deployments@.len() ==> (#[trigger] self.deployment_to_replicas@[i])@.len()
                == self.deployments@[i].cnt_replicas
    }

    pub open spec fn wf(&self) -> bool {
        &&& all_in_state(self.working(), NodeState::Working)
        &&& all_in_state(self.failed(), NodeState::Failed)
        &&& forall|i: int| 0 <= i < self.deployments@.len() ==> (#[trigger] self.deployments@[i]).wf()
        &&& self.replicas_match()
    }

    pub fn new() -> (r: Self)
        ensures
            r.wf(),
            r.working().len() == 0,
            r.failed().len() == 0,
            r.pod_counter == 0,
            r.deployment_counter == 0,
    {
        Self {
            working_nodes: Vec::new(),
            failed_nodes: Vec::new(),
            pod_to_node_map: Vec::new(),
            deployments: Vec::new(),
            deployment_to_replicas: Vec::new(),
            pod_migration_count: 0,
            pod_counter: 0,
            deployment_counter: 0,
        }
    }

    pub fn generate_pod_id(&mut self) -> (r: u64)
        ensures
            old(self).pod_counter < u64::MAX ==> r == old(self).pod_counter + 1,
            final(self).pod_counter == r,
            final(self).working() == old(self).working(),
            final(self).failed() == old(self).failed(),
            final(self).deployments@ == old(self).deployments@,
            final(self).deployment_to_replicas@ == old(self).deployment_to_replicas@,
            final(self).pod_to_node_map@ == old(self).pod_to_node_map@,
            final(self).deployment_counter == old(self).deployment_counter,
            final(self).pod_migration_count == old(self).pod_migration_count,
    {
        if self.pod_counter < u64::MAX {
            self.pod_counter = self.pod_counter + 1;
        }
        self.pod_counter
    }

    pub fn generate_deployment_id(&mut self) -> (r: u64)
        ensures
            old(self).deployment_counter < u64::MAX ==> r == old(self).deployment_counter + 1,
            final(self).deployment_counter == r,
            final(self).working() == old(self).working(),
            final(self).failed() == old(self).failed(),
            final(self).deployments@ == old(self).deployments@,
            final(self).deployment_to_replicas@ == old(self).deployment_to_replicas@,
            final(self).pod_to_node_map@ == old(self).pod_to_node_map@,
            final(self).pod_counter == old(self).pod_counter,
            final(self).pod_migration_count == old(self).pod_migration_count,
    {
        if self.deployment_counter < u64::MAX {
            self.deployment_counter = self.deployment_counter + 1;
        }
        self.deployment_counter
    }

    pub fn find_working(&self, node_id: u64) -> (r: Option<usize>)
        ensures
            match r {
                None => forall|k: int| 0 <= k < self.working().len() ==> (#[trigger] self.working()[k]).id != node_id,
                Some(i) => i < self.working().len() && self.working()[i as int].id == node_id
                    && forall|k: int| 0 <= k < i ==> (#[trigger] self.working()[k]).id != node_id,
            },
            r == first_node_with_id(self.working(), node_id, 0),
    {
        let mut i: usize = 0;
        while i < self.working_nodes.len()
            invariant
                i <= self.working().len(),
                forall|k: int| 0 <= k < i ==> (#[trigger] self.working()[k]).id != node_id,
                first_node_with_id(self.working(), node_id, 0) == first_node_with_id(self.working(), node_id, i as int),
            decreases self.working().len() - i,
        {
            if self.working_nodes[i].id == node_id {
                return Some(i);
            }
            i += 1;
        }
        None
    }

    pub fn find_failed(&self, node_id: u64) -> (r: Option<usize>)
        ensures
            match r {
                None => forall|k: int| 0 <= k < self.failed().len() ==> (#[trigger] self.failed()[k]).id != node_id,
                Some(i) => i < self.failed().len() && self.failed()[i as int].id == node_id,
            },
    {
        let mut i: usize = 0;
        while i < self.failed_nodes.len()
            invariant
                i <= self.failed().len(),
                forall|k: int| 0 <= k < i ==> (#[trigger] self.failed()[k]).id != node_id,
            decreases self.failed().len() - i,
        {
            if self.failed_nodes[i].id == node_id {
                return Some(i);
            }
            i += 1;
        }
        None
    }

    /// Adds a node to the working nodes, keeping them ordered by id.
    pub fn add_new_node(&mut self, node: Node)
        requires
            old(self).wf(),
            node.wf(),
        ensures
            final(self).wf(),
            final(self).working().len() == old(self).working().len() + 1,
            exists|i: int| 0 <= i < final(self).working().len() && final(self).working()[i] == (Node { state: NodeState::Working, ..node }),
            final(self).failed() == old(self).failed(),
            final(self).deployments@ == old(self).deployments@,
            final(self).deployment_to_replicas@ == old(self).deployment_to_replicas@,
            final(self).pod_counter == old(self).pod_counter,
    {
        let mut node = node;
        node.state = NodeState::Working;
        let mut i: usize = 0;
        while i < self.working_nodes.len() && self.working_nodes[i].id < node.id
            invariant
                i <= self.working().len(),
            decreases self.working().len() - i,
        {
            i += 1;
        }
        let ghost w = self.working();
        let ghost n = node;
        self.working_nodes.insert(i, node);
        proof {
            assert(self.working()[i as int] == n);
            assert forall|k: int| 0 <= k < self.working().len() implies (#[trigger] self.working()[k]).wf()
                && self.working()[k].state == NodeState::Working by {
                if k < i {
                    assert(self.working()[k] == w[k]);
                } else if k > i {
                    assert(self.working()[k] == w[k - 1]);
                }
            }
        }
    }

    /// Brings a failed node back, empty, among the working nodes; no-op for an
    /// unknown id. Tells whether it happened.
    pub fn recover_node(&mut self, node_id: u64) -> (r: bool)
        requires
            old(self).wf(),
        ensures
            final(self).wf(),
            r == exists|k: int| 0 <= k < old(self).failed().len() && (#[trigger] old(self).failed()[k]).id == node_id,
            r ==> final(self).working().len() == old(self).working().len() + 1
                && final(self).failed().len() + 1 == old(self).failed().len(),
            r ==> exists|k: int, i: int| 0 <= k < old(self).failed().len() && 0 <= i < final(self).working().len()
                && #[trigger] old(self).failed()[k].id == node_id
                && #[trigger] final(self).working()[i] == (Node { state: NodeState::Working, ..old(self).failed()[k] })
                && final(self).failed() == old(self).failed().remove(k),
            !r ==> final(self).working() == old(self).working() && final(self).failed() == old(self).failed(),
            final(self).deployments@ == old(self).deployments@,
            final(self).deployment_to_replicas@ == old(self).deployment_to_replicas@,
            final(self).pod_counter == old(self).pod_counter,
    {
        match self.find_failed(node_id) {
            None => false,
            Some(i) => {
                let ghost f = self.failed();
                let node = self.failed_nodes.remove(i);
                let ghost f1 = self.failed();
                proof {
                    assert(node == f[i as int]);
                    assert(f1 == f.remove(i as int));
                    assert forall|k: int| 0 <= k < self.failed().len() implies (#[trigger] self.failed()[k]).wf()
                        && self.failed()[k].state == NodeState::Failed by {
                        let k0 = if k < i { k } else { k + 1 };
                        assert(self.failed()[k] == f[k0]);
                    }
                }
                self.add_new_node(node);
                proof {
                    assert(self.failed() == f.remove(i as int));
                }
                true
            },
        }
    }

    /// Moves a working node to the failed nodes, emptied; returns its pods, detached.
    /// No-op (and no pods) for an unknown id.
    pub fn crash_node(&mut self, node_id: u64) -> (r: Vec<Pod>)
        requires
            old(self).wf(),
        ensures
            final(self).wf(),
            forall|k: int| 0 <= k < r@.len() ==> (#[trigger] r@[k]).wf(),
            forall|k: int| 0 <= k < final(self).working().len() ==> (#[trigger] final(self).working()[k]).id != node_id,
            (exists|k: int| 0 <= k < old(self).working().len() && (#[trigger] old(self).working()[k]).id == node_id)
                ==> exists|k: int, j: int| 0 <= k < old(self).working().len() && 0 <= j < final(self).failed().len()
                    && #[trigger] old(self).working()[k].id == node_id
                    && #[trigger] final(self).failed()[j].id == node_id
                    && final(self).failed()[j].cpu_total == old(self).working()[k].cpu_total
                    && final(self).failed()[j].memory_total == old(self).working()[k].memory_total
                    && final(self).failed()[j].resident().len() == 0
                    && final(self).failed()[j].loads() == (0int, 0int, 0int, 0int)
                    && r@.len() == old(self).working()[k].resident().len()
                    && forall|p: int| 0 <= p < r@.len() ==> #[trigger] r@[p] == old(self).working()[k].resident()[p].detached(),
            !(exists|k: int| 0 <= k < old(self).working().len() && (#[trigger] old(self).working()[k]).id == node_id)
                ==> r@.len() == 0 && final(self).working() == old(self).working() && final(self).failed() == old(self).failed(),
            final(self).pod_to_node_map@ == old(self).pod_to_node_map@,
            final(self).deployments@ == old(self).deployments@,
            final(self).deployment_to_replicas@ == old(self).deployment_to_replicas@,
            final(self).pod_counter == old(self).pod_counter,
    {
        match self.take_working(node_id) {
            None => Vec::new(),
            Some(node) => {
                let ghost n0 = node;
                let mut node = node;
                let pods = node.drain();
                node.state = NodeState::Failed;
                let ghost f = self.failed();
                let ghost n = node;
                self.failed_nodes.push(node);
                proof {
                    assert forall|k: int| 0 <= k < self.failed().len() implies (#[trigger] self.failed()[k]).wf()
                        && self.failed()[k].state == NodeState::Failed by {
                        if k < f.len() {
                            assert(self.failed()[k] == f[k]);
                        }
                    }
                    assert(self.failed()[f.len() as int] == n);
                    let k = choose|k: int| 0 <= k < old(self).working().len() && old(self).working()[k] == n0;
                    assert(old(self).working()[k].id == node_id);
                    assert(self.failed()[f.len() as int].id == node_id);
                }
                pods
            },
        }
    }

    /// Takes the working node `node_id` out of the cluster; returns its pods, detached.
    pub fn remove_node(&mut self, node_id: u64) -> (r: Vec<Pod>)
        requires
            old(self).wf(),
        ensures
            final(self).wf(),
            forall|k: int| 0 <= k < r@.len() ==> (#[trigger] r@[k]).wf(),
            forall|k: int| 0 <= k < final(self).working().len() ==> (#[trigger] final(self).working()[k]).id != node_id,
            (exists|k: int| 0 <= k < old(self).working().len() && (#[trigger] old(self).working()[k]).id == node_id)
                ==> exists|k: int| 0 <= k < old(self).working().len() && #[trigger] old(self).working()[k].id == node_id
                    && r@.len() == old(self).working()[k].resident().len()
                    && forall|p: int| 0 <= p < r@.len() ==> #[trigger] r@[p] == old(self).working()[k].resident()[p].detached(),
            !(exists|k: int| 0 <= k < old(self).working().len() && (#[trigger] old(self).working()[k]).id == node_id)
                ==> r@.len() == 0 && final(self).working() == old(self).working(),
            final(self).pod_to_node_map@ == old(self).pod_to_node_map@,
            final(self).failed() == old(self).failed(),
            final(self).deployments@ == old(self).deployments@,
            final(self).deployment_to_replicas@ == old(self).deployment_to_replicas@,
            final(self).pod_counter == old(self).pod_counter,
    {
        match self.take_working(node_id) {
            None => Vec::new(),
            Some(node) => {
                let mut node = node;
                node.drain()
            },
        }
    }

    /// Removes every working node with id `node_id`, returning the first one.
    fn take_working(&mut self, node_id: u64) -> (r: Option<Node>)
        requires
            old(self).wf(),
        ensures
            final(self).wf(),
            r matches Some(n) ==> n.wf() && n.id == node_id && n.state == NodeState::Working
                && exists|k: int| 0 <= k < old(self).working().len() && old(self).working()[k] == n,
            r.is_none() == !(exists|k: int| 0 <= k < old(self).working().len() && (#[trigger] old(self).working()[k]).id == node_id),
            forall|k: int| 0 <= k < final(self).working().len() ==> (#[trigger] final(self).working()[k]).id != node_id,
            r.is_none() ==> final(self).working() == old(self).working(),
            final(self).failed() == old(self).failed(),
            final(self).pod_to_node_map@ == old(self).pod_to_node_map@,
            final(self).deployments@ == old(self).deployments@,
            final(self).deployment_to_replicas@ == old(self).deployment_to_replicas@,
            final(self).pod_counter == old(self).pod_counter,
    {
        let mut first: Option<Node> = None;
        let mut kept: Vec<Node> = Vec::new();
        let mut all: Vec<Node> = Vec::new();
        std::mem::swap(&mut all, &mut self.working_nodes);
        let ghost w = all@;
        proof {
            assert(w == old(self).working());
        }
        while all.len() > 0
            invariant
                all_in_state(kept@, NodeState::Working),
                all_in_state(all@, NodeState::Working),
                forall|k: int| 0 <= k < kept@.len() ==> (#[trigger] kept@[k]).id != node_id,
                first matches Some(n) ==> n.wf() && n.id == node_id && n.state == NodeState::Working
                    && exists|k: int| 0 <= k < w.len() && w[k] == n,
                first.is_none() == !(exists|k: int| 0 <= k < w.len() - all@.len() && (#[trigger] w[k]).id == node_id),
                all@ == w.subrange(w.len() - all@.len(), w.len() as int),
                all@.len() <= w.len(),
                self.failed() == old(self).failed(),
                self.deployments@ == old(self).deployments@,
                self.deployment_to_replicas@ == old(self).deployment_to_replicas@,
                self.pod_counter == old(self).pod_counter,
                all_in_state(self.failed(), NodeState::Failed),
                forall|i: int| 0 <= i < self.deployments@.len() ==> (#[trigger] self.deployments@[i]).wf(),
                self.replicas_match(),
                self.pod_to_node_map@ == old(self).pod_to_node_map@,
                first.is_none() ==> kept@ == w.subrange(0, w.len() - all@.len()),
            decreases all@.len(),
        {
            let ghost before_all = all@;
            let ghost before_kept = kept@;
            let n = all.remove(0);
            proof {
                assert(n == w[w.len() - before_all.len()]);
                assert(all@ =~= w.subrange(w.len() - all@.len(), w.len() as int));
                assert forall|k: int| 0 <= k < all@.len() implies (#[trigger] all@[k]).wf() && all@[k].state == NodeState::Working by {
                    assert(all@[k] == before_all[k + 1]);
                }
            }
            if n.id == node_id {
                if first.is_none() {
                    first = Some(n);
                    proof {
                        assert(w[w.len() - before_all.len()] == n);
                    }
                }
            } else {
                let ghost kb = kept@;
                kept.push(n);
                proof {
                    if first.is_none() {
                        assert(kept@ =~= w.subrange(0, w.len() - all@.len()));
                    }
                    assert forall|k: int| 0 <= k < kept@.len() implies (#[trigger] kept@[k]).wf() && kept@[k].state == NodeState::Working
                        && kept@[k].id != node_id by {
                        if k < before_kept.len() {
                            assert(kept@[k] == before_kept[k]);
                        }
                    }
                }
            }
            proof {
                let done = w.len() - all@.len();
                if first.is_none() {
                    assert forall|k: int| 0 <= k < done implies (#[trigger] w[k]).id != node_id by {
                        if k == done - 1 {
                            assert(w[k] == n);
                        }
                    }
                } else {
                    if n.id == node_id {
                        assert(w[done - 1].id == node_id);
                    }
                }
            }
        }
        proof {
            if first.is_none() {
                assert(kept@ =~= w);
            }
        }
        self.working_nodes = kept;
        first
    }

    /// The node the records place pod `pod_id` on, if any.
    pub fn get_pod_node(&self, pod_id: u64) -> (r: Option<u64>)
        ensures
            r == placed_on(self.pod_to_node_map@, pod_id),
    {
        let mut i: usize = self.pod_to_node_map.len();
        proof {
            assert(self.pod_to_node_map@.subrange(0, i as int) =~= self.pod_to_node_map@);
        }
        while i > 0
            invariant
                i <= self.pod_to_node_map@.len(),
                placed_on(self.pod_to_node_map@, pod_id) == placed_on(
                    self.pod_to_node_map@.subrange(0, i as int),
                    pod_id,
                ),
            decreases i,
        {
            proof {
                let t = self.pod_to_node_map@.subrange(0, i as int);
                assert(t.drop_last() =~= self.pod_to_node_map@.subrange(0, i as int - 1));
            }
            if self.pod_to_node_map[i - 1].0 == pod_id {
                return Some(self.pod_to_node_map[i - 1].1);
            }
            i -= 1;
        }
        None
    }

    /// Records that pod `pod_id` now stands on node `node_id`.
    pub fn set_pod_node(&mut self, pod_id: u64, node_id: u64)
        ensures
            placed_on(final(self).pod_to_node_map@, pod_id) == Some(node_id),
            forall|id: u64| id != pod_id ==> placed_on(final(self).pod_to_node_map@, id) == placed_on(old(self).pod_to_node_map@, id),
            final(self).working() == old(self).working(),
            final(self).failed() == old(self).failed(),
            final(self).deployments@ == old(self).deployments@,
            final(self).deployment_to_replicas@ == old(self).deployment_to_replicas@,
            final(self).pod_counter == old(self).pod_counter,
            final(self).pod_migration_count == old(self).pod_migration_count,
    {
        self.clear_pod_node(pod_id);
        let ghost m = self.pod_to_node_map@;
        self.pod_to_node_map.push((pod_id, node_id));
        proof {
            assert(self.pod_to_node_map@.drop_last() =~= m);
        }
    }

    /// Drops every placement record of pod `pod_id`.
    pub fn clear_pod_node(&mut self, pod_id: u64)
        ensures
            placed_on(final(self).pod_to_node_map@, pod_id).is_none(),
            forall|id: u64| id != pod_id ==> placed_on(final(self).pod_to_node_map@, id) == placed_on(old(self).pod_to_node_map@, id),
            final(self).working() == old(self).working(),
            final(self).failed() == old(self).failed(),
            final(self).deployments@ == old(self).deployments@,
            final(self).deployment_to_replicas@ == old(self).deployment_to_replicas@,
            final(self).pod_counter == old(self).pod_counter,
            final(self).pod_migration_count == old(self).pod_migration_count,
    {
        let mut kept: Vec<(u64, u64)> = Vec::new();
        let mut i: usize = 0;
        while i < self.pod_to_node_map.len()
            invariant
                i <= self.pod_to_node_map@.len(),
                self.pod_to_node_map@ == old(self).pod_to_node_map@,
                forall|id: u64| id != pod_id ==> #[trigger] placed_on(kept@, id) == placed_on(
                    self.pod_to_node_map@.subrange(0, i as int),
                    id,
                ),
                placed_on(kept@, pod_id).is_none(),
            decreases self.pod_to_node_map@.len() - i,
        {
            let e = self.pod_to_node_map[i];
            let ghost before = kept@;
            if e.0 != pod_id {
                kept.push(e);
            }
            proof {
                let t = self.pod_to_node_map@.subrange(0, i as int + 1);
                assert(t.drop_last() =~= self.pod_to_node_map@.subrange(0, i as int));
                if e.0 != pod_id {
                    assert(kept@.drop_last() =~= before);
                }
                assert forall|id: u64| id != pod_id implies #[trigger] placed_on(kept@, id) == placed_on(t, id) by {
                    assert(t.last() == e);
                    if e.0 != pod_id {
                        assert(placed_on(kept@, id) == if e.0 == id {
                            Some(e.1)
                        } else {
                            placed_on(before, id)
                        });
                    }
                }
            }
            i += 1;
        }
        proof {
            assert(self.pod_to_node_map@.subrange(0, i as int) =~= self.pod_to_node_map@);
        }
        self.pod_to_node_map = kept;
    }

    /// Takes pod `pod_id` off the working node the records place it on (if that node
    /// still works) and drops its placement records.
    #[verifier::rlimit(50)]
    pub fn remove_pod(&mut self, pod_id: u64)
        requires
            old(self).wf(),
        ensures
            final(self).wf(),
            placed_on(final(self).pod_to_node_map@, pod_id).is_none(),
            final(self).working().len() == old(self).working().len(),
            forall|id: u64| id != pod_id ==> placed_on(final(self).pod_to_node_map@, id) == placed_on(old(self).pod_to_node_map@, id),
            match placed_on(old(self).pod_to_node_map@, pod_id) {
                None => final(self).working() == old(self).working(),
                Some(node_id) => match first_node_with_id(old(self).working(), node_id, 0) {
                    None => final(self).working() == old(self).working(),
                    Some(i) => {
                        &&& forall|k: int| 0 <= k < final(self).working().len() && k != i ==> final(self).working()[k] == old(self).working()[k]
                        &&& !crate::node::holds_pod(final(self).working()[i as int].resident(), pod_id)
                        &&& final(self).working()[i as int].id == node_id
                    },
                },
            },
            final(self).failed() == old(self).failed(),
            final(self).deployments@ == old(self).deployments@,
            final(self).deployment_to_replicas@ == old(self).deployment_to_replicas@,
            final(self).pod_counter == old(self).pod_counter,
            final(self).pod_migration_count == old(self).pod_migration_count,
    {
        match self.get_pod_node(pod_id) {
            None => {},
            Some(node_id) => {
                match self.find_working(node_id) {
                    None => {},
                    Some(i) => {
                        let ghost w = self.working();
                        let mut node = self.working_nodes.remove(i);
                        proof {
                            assert(node == w[i as int]);
                        }
                        let _ = node.remove_pod(pod_id);
                        self.working_nodes.insert(i, node);
                        proof {
                            assert forall|k: int| 0 <= k < self.working().len() implies (#[trigger] self.working()[k]).wf()
                                && self.working()[k].state == NodeState::Working by {
                                if k != i {
                                    assert(self.working()[k] == w[k]);
                                }
                            }
                            assert forall|k: int| 0 <= k < self.working().len() && k != i implies self.working()[k] == w[k] by {}
                        }
                    },
                }
            },
        }
        self.clear_pod_node(pod_id);
    }

    /// The number of replicas of deployment `deployment_id` that have a placement
    /// record (1 for an unknown deployment).
    pub fn get_real_cnt_replicas(&self, deployment_id: u64) -> (r: u64)
        requires
            self.replicas_match(),
        ensures
            (forall|k: int| 0 <= k < self.deployments@.len() ==> (#[trigger] self.deployments@[k]).id != deployment_id) ==> r == 1,
            (exists|k: int| 0 <= k < self.deployments@.len() && (#[trigger] self.deployments@[k]).id == deployment_id) ==> exists|d: int|
                0 <= d < self.deployments@.len() && self.deployments@[d].id == deployment_id && r == placed_count(
                    self.pod_to_node_map@,
                    self.deployment_to_replicas@[d]@,
                ),
    {
        let mut d: usize = 0;
        while d < self.deployments.len() && self.deployments[d].id != deployment_id
            invariant
                d <= self.deployments@.len(),
                forall|k: int| 0 <= k < d ==> (#[trigger] self.deployments@[k]).id != deployment_id,
            decreases self.deployments@.len() - d,
        {
            d += 1;
        }
        if d == self.deployments.len() {
            return 1;
        }
        let replicas = &self.deployment_to_replicas[d];
        let ghost ids = replicas@;
        let mut cnt: u64 = 0;
        let mut i: usize = 0;
        while i < replicas.len()
            invariant
                i <= ids.len(),
                ids == replicas@,
                cnt == placed_count(self.pod_to_node_map@, ids.subrange(0, i as int)),
                cnt <= i,
            decreases ids.len() - i,
        {
            proof {
                let t = ids.subrange(0, i as int + 1);
                assert(t.drop_last() =~= ids.subrange(0, i as int));
            }
            if self.get_pod_node(replicas[i]).is_some() {
                cnt = cnt + 1;
            }
            i += 1;
        }
        proof {
            assert(ids.subrange(0, i as int) =~= ids);
        }
        cnt
    }

    /// The sum of a reading over the working nodes.
    pub fn sum_working(&self, reading: Reading) -> (r: u128)
        requires
            all_in_state(self.working(), NodeState::Working),
        ensures
            r == sum_reading(self.working(), reading),
    {
        let mut total: u128 = 0;
        let mut i: usize = 0;
        while i < self.working_nodes.len()
            invariant
                i <= self.working().len(),
                all_in_state(self.working(), NodeState::Working),
                total == sum_reading(self.working().subrange(0, i as int), reading),
                total <= i * MAX_RESOURCE,
            decreases self.working().len() - i,
        {
            let n = &self.working_nodes[i];
            assert(n.wf());
            let v: u64 = match reading {
                Reading::CpuAllocated => n.cpu_allocated,
                Reading::MemoryAllocated => n.memory_allocated,
                Reading::CpuUsed => n.cpu_used,
                Reading::MemoryUsed => n.memory_used,
                Reading::CpuTotal => n.cpu_total,
                Reading::MemoryTotal => n.memory_total,
            };
            proof {
                crate::node::lemma_used_within_allocated(n.resident());
                let t = self.working().subrange(0, i as int + 1);
                assert(t.drop_last() =~= self.working().subrange(0, i as int));
                assert(i * MAX_RESOURCE <= u64::MAX * MAX_RESOURCE) by (nonlinear_arith)
                    requires
                        i <= u64::MAX,
                ;
            }
            total = total + v as u128;
            i += 1;
        }
        proof {
            assert(self.working().subrange(0, i as int) =~= self.working());
        }
        total
    }

    /// The average of a reading over the working nodes (rounded down; zero with no node).
    pub fn average_working(&self, reading: Reading) -> (r: u64)
        requires
            all_in_state(self.working(), NodeState::Working),
        ensures
            r == average_reading(self.working(), reading),
    {
        let total = self.sum_working(reading);
        let n = self.working_nodes.len();
        if n == 0 {
            return 0;
        }
        proof {
            lemma_sum_reading_bound(self.working(), reading);
            vstd::arithmetic::div_mod::lemma_div_is_ordered(total as int, n * MAX_RESOURCE, n as int);
            vstd::arithmetic::div_mod::lemma_div_multiples_vanish(MAX_RESOURCE as int, n as int);
            assert(n * MAX_RESOURCE == MAX_RESOURCE * n) by (nonlinear_arith);
        }
        (total / (n as u128)) as u64
    }

    /// A reading's sum over the working nodes, in millionths of another's (zero when
    /// that one sums to zero).
    pub fn rate_working(&self, part: Reading, whole: Reading) -> (r: u128)
        requires
            all_in_state(self.working(), NodeState::Working),
        ensures
            r == per_million(sum_reading(self.working(), part), sum_reading(self.working(), whole)),
    {
        let p = self.sum_working(part);
        let w = self.sum_working(whole);
        if w == 0 {
            return 0;
        }
        let n = self.working_nodes.len();
        proof {
            lemma_sum_reading_bound(self.working(), part);
            assert(n * MAX_RESOURCE <= u64::MAX * MAX_RESOURCE) by (nonlinear_arith)
                requires
                    n <= u64::MAX,
            ;
        }
        p * 1_000_000 / w
    }

    /// Memory overuse events counted by the working nodes.
    pub fn memory_overuse_count(&self) -> (r: u128)
        ensures
            r == overuse_sum(self.working()),
    {
        let mut total: u128 = 0;
        let mut i: usize = 0;
        while i < self.working_nodes.len()
            invariant
                i <= self.working().len(),
                total <= i * u64::MAX,
                total == overuse_sum(self.working().subrange(0, i as int)),
            decreases self.working().len() - i,
        {
            proof {
                let t = self.working().subrange(0, i as int + 1);
                assert(t.drop_last() =~= self.working().subrange(0, i as int));
            }
            proof {
                assert(i * u64::MAX <= u64::MAX * u64::MAX) by (nonlinear_arith)
                    requires
                        i <= u64::MAX,
                ;
            }
            total = total + self.working_nodes[i].memory_overuse_count as u128;
            i += 1;
        }
        proof {
            assert(self.working().subrange(0, i as int) =~= self.working());
        }
        total
    }
}

pub proof fn lemma_sum_reading_bound(s: Seq<Node>, r: Reading)
    requires
        all_in_state(s, NodeState::Working),
    ensures
        0 <= sum_reading(s, r) <= s.len() * MAX_RESOURCE,
    decreases s.len(),
{
    if s.len() > 0 {
        assert(all_in_state(s.drop_last(), NodeState::Working)) by {
            assert forall|i: int| 0 <= i < s.drop_last().len() implies (#[trigger] s.drop_last()[i]).wf()
                && s.drop_last()[i].state == NodeState::Working by {
                assert(s.drop_last()[i] == s[i]);
            }
        }
        lemma_sum_reading_bound(s.drop_last(), r);
        assert(s[s.len() - 1].wf());
        crate::node::lemma_used_within_allocated(s.last().resident());
    }
}

} // verus!

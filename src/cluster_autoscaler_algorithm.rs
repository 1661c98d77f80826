//! Cluster autoscaling decisions: how many default nodes pending pods need, and which
//! idle nodes may go.
use vstd::prelude::*;
use crate::load_model::MAX_RESOURCE;
use crate::node::Node;
use crate::pod::Pod;
use crate::simulation_config::NodeConfig;

verus! {

/// A node of the scale-up simulation: what has been packed onto it so far.
#[derive(Clone, Copy)]
pub struct SimpleNode {
    pub cpu_allocated: u64,
    pub memory_allocated: u64,
}

/// A pending pod's requests, as the scale-up simulation sees it.
#[derive(Clone, Copy)]
pub struct SimplePod {
    pub requested_cpu: u64,
    pub requested_memory: u64,
}

pub open spec fn packs(n: SimpleNode, p: SimplePod, cpu: u64, memory: u64) -> bool {
    n.cpu_allocated + p.requested_cpu <= cpu && n.memory_allocated + p.requested_memory <= memory
}

/// How full a node would be after taking the pod; the smaller, the more free room is
/// left. It is the sum of the two used fractions, scaled by the product of the totals.
pub open spec fn fullness(n: SimpleNode, p: SimplePod, cpu: u64, memory: u64) -> int {
    (n.cpu_allocated + p.requested_cpu) * memory + (n.memory_allocated + p.requested_memory) * cpu
}

/// Among the first `len` nodes that can take the pod, the first one left with the most
/// free room.
pub open spec fn roomiest(nodes: Seq<SimpleNode>, len: int, p: SimplePod, cpu: u64, memory: u64) -> Option<int>
    decreases len,
{
    if len <= 0 {
        None
    } else {
        let b = roomiest(nodes, len - 1, p, cpu, memory);
        if !packs(nodes[len - 1], p, cpu, memory) {
            b
        } else {
            match b {
                None => Some(len - 1),
                Some(j) => if fullness(nodes[len - 1], p, cpu, memory) < fullness(
                    nodes[j],
                    p,
                    cpu,
                    memory,
                ) {
                    Some(len - 1)
                } else {
                    Some(j)
                },
            }
        }
    }
}

/// One step of the packing: the pod goes to the roomiest node that can take it, or to
/// a new node of its own.
pub open spec fn pack_step(nodes: Seq<SimpleNode>, p: SimplePod, cpu: u64, memory: u64) -> Seq<SimpleNode> {
    match roomiest(nodes, nodes.len() as int, p, cpu, memory) {
        None => nodes.push(
            SimpleNode { cpu_allocated: p.requested_cpu, memory_allocated: p.requested_memory },
        ),
        Some(j) => nodes.update(
            j,
            SimpleNode {
                cpu_allocated: (nodes[j].cpu_allocated + p.requested_cpu) as u64,
                memory_allocated: (nodes[j].memory_allocated + p.requested_memory) as u64,
            },
        ),
    }
}

/// The nodes after packing the first `len` pods, starting from one empty node.
pub open spec fn pack(pods: Seq<SimplePod>, len: int, cpu: u64, memory: u64) -> Seq<SimpleNode>
    decreases len,
{
    if len <= 0 {
        seq![SimpleNode { cpu_allocated: 0, memory_allocated: 0 }]
    } else {
        pack_step(pack(pods, len - 1, cpu, memory), pods[len - 1], cpu, memory)
    }
}

pub open spec fn simple_pods(pods: Seq<Pod>) -> Seq<SimplePod> {
    pods.map_values(
        |p: Pod| SimplePod { requested_cpu: p.requested_cpu, requested_memory: p.requested_memory },
    )
}

/// The recorded idle-since time of node `id`, if any.
pub open spec fn idle_since(idle_table: Seq<(u64, u64)>, id: u64) -> Option<u64>
    decreases idle_table.len(),
{
    if idle_table.len() == 0 {
        None
    } else if idle_table.last().0 == id {
        Some(idle_table.last().1)
    } else {
        idle_since(idle_table.drop_last(), id)
    }
}

pub open spec fn is_idle(n: Node) -> bool {
    n.cpu_allocated == 0 && n.memory_allocated == 0
}

/// Whether `id` is a working node that holds no allocation.
pub open spec fn idle_working(nodes: Seq<Node>, id: u64) -> bool {
    exists|i: int| 0 <= i < nodes.len() && nodes[i].id == id && is_idle(nodes[i])
}

/// Whether every working node with id `id` is idle.
pub open spec fn all_idle_with_id(nodes: Seq<Node>, id: u64) -> bool {
    forall|k: int| 0 <= k < nodes.len() && (#[trigger] nodes[k]).id == id ==> is_idle(nodes[k])
}

/// Whether node `id` may be removed at `now`: it is a working node, idle, and was first
/// seen idle at least `unneeded` ago.
pub open spec fn removable(nodes: Seq<Node>, idle: Seq<(u64, u64)>, id: u64, now: u64, unneeded: u64) -> bool {
    &&& idle_working(nodes, id)
    &&& all_idle_with_id(nodes, id)
    &&& idle_since(idle, id) is Some
    &&& now >= idle_since(idle, id)->0 + unneeded
}

pub struct SimpleClusterAutoscalerAlgorithm {
    /// Working nodes seen idle, with the time they were first seen so.
    pub node_unneeded_time: Vec<(u64, u64)>,
    pub scale_down_unneeded_time: u64,
    pub max_empty_bulk_delete: u64,
    pub last_scale_up_time: u64,
    pub last_scale_down_time: u64,
    pub scale_up_delay: u64,
}

proof fn lemma_roomiest_packs(nodes: Seq<SimpleNode>, len: int, p: SimplePod, cpu: u64, memory: u64)
    requires
        len <= nodes.len(),
    ensures
        roomiest(nodes, len, p, cpu, memory) matches Some(j) ==> 0 <= j < len && packs(
            nodes[j],
            p,
            cpu,
            memory,
        ),
    decreases len,
{
    if len > 0 {
        lemma_roomiest_packs(nodes, len - 1, p, cpu, memory);
    }
}

pub open spec fn nodes_fit(nodes: Seq<SimpleNode>) -> bool {
    forall|k: int|
        0 <= k < nodes.len() ==> (#[trigger] nodes[k]).cpu_allocated <= MAX_RESOURCE
            && nodes[k].memory_allocated <= MAX_RESOURCE
}

fn fullness_of(n: SimpleNode, p: SimplePod, cpu: u64, memory: u64) -> (r: u128)
    requires
        n.cpu_allocated <= MAX_RESOURCE,
        n.memory_allocated <= MAX_RESOURCE,
        p.requested_cpu <= MAX_RESOURCE,
        p.requested_memory <= MAX_RESOURCE,
        cpu <= MAX_RESOURCE,
        memory <= MAX_RESOURCE,
    ensures
        r == fullness(n, p, cpu, memory),
{
    let c = (n.cpu_allocated + p.requested_cpu) as u128;
    let m = (n.memory_allocated + p.requested_memory) as u128;
    assert(c * memory <= 2 * MAX_RESOURCE * MAX_RESOURCE) by (nonlinear_arith)
        requires
            c <= 2 * MAX_RESOURCE,
            memory <= MAX_RESOURCE,
    ;
    assert(m * cpu <= 2 * MAX_RESOURCE * MAX_RESOURCE) by (nonlinear_arith)
        requires
            m <= 2 * MAX_RESOURCE,
            cpu <= MAX_RESOURCE,
    ;
    c * (memory as u128) + m * (cpu as u128)
}

fn find_roomiest(nodes: &Vec<SimpleNode>, p: SimplePod, cpu: u64, memory: u64) -> (r: Option<usize>)
    requires
        nodes_fit(nodes@),
        p.requested_cpu <= MAX_RESOURCE,
        p.requested_memory <= MAX_RESOURCE,
        cpu <= MAX_RESOURCE,
        memory <= MAX_RESOURCE,
    ensures
        match r {
            None => roomiest(nodes@, nodes@.len() as int, p, cpu, memory).is_none(),
            Some(j) => roomiest(nodes@, nodes@.len() as int, p, cpu, memory) == Some(j as int)
                && j < nodes@.len(),
        },
{
    let mut best: Option<usize> = None;
    let mut i: usize = 0;
    while i < nodes.len()
        invariant
            i <= nodes@.len(),
            nodes_fit(nodes@),
            p.requested_cpu <= MAX_RESOURCE,
            p.requested_memory <= MAX_RESOURCE,
            cpu <= MAX_RESOURCE,
            memory <= MAX_RESOURCE,
            match best {
                None => roomiest(nodes@, i as int, p, cpu, memory).is_none(),
                Some(j) => roomiest(nodes@, i as int, p, cpu, memory) == Some(j as int) && j < i,
            },
        decreases nodes@.len() - i,
    {
        let n = nodes[i];
        assert(n.cpu_allocated <= MAX_RESOURCE && n.memory_allocated <= MAX_RESOURCE);
        if n.cpu_allocated + p.requested_cpu <= cpu && n.memory_allocated + p.requested_memory
            <= memory {
            match best {
                None => {
                    best = Some(i);
                },
                Some(j) => {
                    let b = nodes[j];
                    assert(b.cpu_allocated <= MAX_RESOURCE && b.memory_allocated <= MAX_RESOURCE);
                    if fullness_of(n, p, cpu, memory) < fullness_of(b, p, cpu, memory) {
                        best = Some(i);
                    }
                },
            }
        }
        i += 1;
    }
    best
}

impl SimpleClusterAutoscalerAlgorithm {
    pub open spec fn idle_table(&self) -> Seq<(u64, u64)> {
        self.node_unneeded_time@
    }

    pub fn new(scale_down_unneeded_time: u64, max_empty_bulk_delete: u64, scale_up_delay: u64) -> (r:
        Self)
        ensures
            r.idle_table().len() == 0,
            r.scale_down_unneeded_time == scale_down_unneeded_time,
            r.max_empty_bulk_delete == max_empty_bulk_delete,
            r.scale_up_delay == scale_up_delay,
            r.last_scale_up_time == 0,
    {
        Self {
            node_unneeded_time: Vec::new(),
            scale_down_unneeded_time,
            max_empty_bulk_delete,
            last_scale_up_time: 0,
            last_scale_down_time: 0,
            scale_up_delay,
        }
    }

    /// The number of default nodes that would hold every pending pod, packing each onto
    /// the node left with the most free room; zero when nothing is pending or the last
    /// scale-up was less than the scale-up delay ago.
    pub fn try_to_scale_up(&mut self, pending_pods: &Vec<Pod>, now_time: u64, default_node: &NodeConfig) -> (r: u64)
        requires
            forall|k: int| 0 <= k < pending_pods@.len() ==> (#[trigger] pending_pods@[k]).wf(),
            default_node.cpu <= MAX_RESOURCE,
            default_node.memory <= MAX_RESOURCE,
        ensures
            final(self).idle_table() == old(self).idle_table(),
            final(self).scale_down_unneeded_time == old(self).scale_down_unneeded_time,
            final(self).max_empty_bulk_delete == old(self).max_empty_bulk_delete,
            final(self).scale_up_delay == old(self).scale_up_delay,
            final(self).last_scale_down_time == old(self).last_scale_down_time,
            final(self).last_scale_up_time == (if r > 0 {
                now_time
            } else {
                old(self).last_scale_up_time
            }),
            pending_pods@.len() == 0 ==> r == 0,
            old(self).last_scale_up_time + old(self).scale_up_delay > now_time ==> r == 0,
            pending_pods@.len() > 0 && old(self).last_scale_up_time + old(self).scale_up_delay
                <= now_time ==> r == pack(
                simple_pods(pending_pods@),
                pending_pods@.len() as int,
                default_node.cpu,
                default_node.memory,
            ).len() && r >= 1,
    {
        if pending_pods.len() == 0 {
            return 0;
        }
        if self.last_scale_up_time as u128 + self.scale_up_delay as u128 > now_time as u128 {
            return 0;
        }
        let ghost pods = simple_pods(pending_pods@);
        let mut nodes: Vec<SimpleNode> = Vec::new();
        nodes.push(SimpleNode { cpu_allocated: 0, memory_allocated: 0 });
        proof {
            assert(nodes@ =~= pack(pods, 0, default_node.cpu, default_node.memory));
        }
        let mut i: usize = 0;
        while i < pending_pods.len()
            invariant
                i <= pending_pods@.len(),
                pods == simple_pods(pending_pods@),
                forall|k: int| 0 <= k < pending_pods@.len() ==> (#[trigger] pending_pods@[k]).wf(),
                default_node.cpu <= MAX_RESOURCE,
                default_node.memory <= MAX_RESOURCE,
                nodes@ == pack(pods, i as int, default_node.cpu, default_node.memory),
                nodes_fit(nodes@),
                1 <= nodes@.len() <= i + 1,
            decreases pending_pods@.len() - i,
        {
            assert(pending_pods@[i as int].wf());
            let p = SimplePod {
                requested_cpu: pending_pods[i].requested_cpu,
                requested_memory: pending_pods[i].requested_memory,
            };
            assert(p == pods[i as int]);
            match find_roomiest(&nodes, p, default_node.cpu, default_node.memory) {
                None => {
                    nodes.push(
                        SimpleNode {
                            cpu_allocated: p.requested_cpu,
                            memory_allocated: p.requested_memory,
                        },
                    );
                },
                Some(j) => {
                    proof {
                        lemma_roomiest_packs(nodes@, nodes@.len() as int, p, default_node.cpu, default_node.memory);
                    }
                    let n = nodes[j];
                    nodes.set(
                        j,
                        SimpleNode {
                            cpu_allocated: n.cpu_allocated + p.requested_cpu,
                            memory_allocated: n.memory_allocated + p.requested_memory,
                        },
                    );
                },
            }
            i += 1;
        }
        self.last_scale_up_time = now_time;
        nodes.len() as u64
    }

    pub fn find_tracked(&self, node_id: u64) -> (r: Option<u64>)
        ensures
            r == idle_since(self.idle_table(), node_id),
    {
        let mut i: usize = self.node_unneeded_time.len();
        proof {
            assert(self.idle_table().subrange(0, i as int) =~= self.idle_table());
        }
        while i > 0
            invariant
                i <= self.idle_table().len(),
                idle_since(self.idle_table(), node_id) == idle_since(
                    self.idle_table().subrange(0, i as int),
                    node_id,
                ),
            decreases i,
        {
            let ghost t = self.idle_table().subrange(0, i as int);
            proof {
                assert(t.drop_last() =~= self.idle_table().subrange(0, i as int - 1));
            }
            if self.node_unneeded_time[i - 1].0 == node_id {
                return Some(self.node_unneeded_time[i - 1].1);
            }
            i -= 1;
        }
        None
    }

    /// Removes every idle_table entry of node `node_id`.
    fn forget(&mut self, node_id: u64)
        ensures
            forall|id: u64| id != node_id ==> idle_since(final(self).idle_table(), id) == idle_since(
                old(self).idle_table(),
                id,
            ),
            idle_since(final(self).idle_table(), node_id).is_none(),
            final(self).scale_down_unneeded_time == old(self).scale_down_unneeded_time,
            final(self).max_empty_bulk_delete == old(self).max_empty_bulk_delete,
            final(self).last_scale_up_time == old(self).last_scale_up_time,
            final(self).scale_up_delay == old(self).scale_up_delay,
    {
        let mut kept: Vec<(u64, u64)> = Vec::new();
        let mut i: usize = 0;
        while i < self.node_unneeded_time.len()
            invariant
                i <= self.idle_table().len(),
                self.idle_table() == old(self).idle_table(),
                forall|id: u64| id != node_id ==> #[trigger] idle_since(kept@, id) == idle_since(
                    self.idle_table().subrange(0, i as int),
                    id,
                ),
                idle_since(kept@, node_id).is_none(),
            decreases self.idle_table().len() - i,
        {
            let e = self.node_unneeded_time[i];
            let ghost before = kept@;
            if e.0 != node_id {
                kept.push(e);
            }
            proof {
                let t = self.idle_table().subrange(0, i as int + 1);
                assert(t.drop_last() =~= self.idle_table().subrange(0, i as int));
                if e.0 != node_id {
                    assert(kept@.drop_last() =~= before);
                }
                assert forall|id: u64| id != node_id implies #[trigger] idle_since(kept@, id)
                    == idle_since(t, id) by {
                    assert(t.last() == e);
                    assert(idle_since(before, id) == idle_since(
                        self.idle_table().subrange(0, i as int),
                        id,
                    ));
                    if e.0 != node_id {
                        assert(idle_since(kept@, id) == if e.0 == id {
                            Some(e.1)
                        } else {
                            idle_since(before, id)
                        });
                    }
                }
            }
            i += 1;
        }
        proof {
            assert(self.idle_table().subrange(0, i as int) =~= self.idle_table());
        }
        self.node_unneeded_time = kept;
    }

    /// Picks the working nodes that have been idle for at least the unneeded time, at
    /// most `max_empty_bulk_delete` of them (no cap when it is zero), and updates the
    /// idle tracking: nodes gone or loaded are forgotten, newly idle ones are recorded.
    pub fn try_to_scale_down(&mut self, working_nodes: &Vec<Node>, now_time: u64) -> (r: Vec<u64>)
        ensures
            final(self).scale_down_unneeded_time == old(self).scale_down_unneeded_time,
            final(self).max_empty_bulk_delete == old(self).max_empty_bulk_delete,
            final(self).scale_up_delay == old(self).scale_up_delay,
            final(self).last_scale_up_time == old(self).last_scale_up_time,
            final(self).last_scale_down_time == now_time,
            old(self).max_empty_bulk_delete > 0 ==> r@.len() <= old(self).max_empty_bulk_delete,
            forall|k: int|
                0 <= k < r@.len() ==> {
                    &&& idle_working(working_nodes@, #[trigger] r@[k])
                    &&& idle_since(old(self).idle_table(), r@[k]) is Some
                    &&& now_time >= idle_since(old(self).idle_table(), r@[k])->0
                        + old(self).scale_down_unneeded_time
                    &&& idle_since(final(self).idle_table(), r@[k]).is_none()
                },
            old(self).max_empty_bulk_delete == 0 || r@.len() < old(self).max_empty_bulk_delete
                ==> forall|k: int|
                0 <= k < working_nodes@.len() && removable(
                    working_nodes@,
                    old(self).idle_table(),
                    #[trigger] working_nodes@[k].id,
                    now_time,
                    old(self).scale_down_unneeded_time,
                ) ==> r@.contains(working_nodes@[k].id),
            old(self).max_empty_bulk_delete == 0 || r@.len() < old(self).max_empty_bulk_delete
                ==> forall|k: int|
                0 <= k < working_nodes@.len() && is_idle(working_nodes@[k]) && idle_since(
                    old(self).idle_table(),
                    #[trigger] working_nodes@[k].id,
                ) is None ==> idle_since(final(self).idle_table(), working_nodes@[k].id) == Some(now_time),
    {
        let ghost t0 = self.idle_table();
        // Forget the nodes that are gone or loaded again.
        let mut stale: Vec<u64> = Vec::new();
        let mut i: usize = 0;
        while i < self.node_unneeded_time.len()
            invariant
                i <= self.idle_table().len(),
                self.idle_table() == t0,
                forall|j: int|
                    0 <= j < stale@.len() ==> !(idle_working(working_nodes@, #[trigger] stale@[j])
                        && all_idle_with_id(working_nodes@, stale@[j])),
            decreases self.idle_table().len() - i,
        {
            let id = self.node_unneeded_time[i].0;
            let mut k: usize = 0;
            while k < working_nodes.len() && working_nodes[k].id != id
                invariant
                    k <= working_nodes@.len(),
                    forall|j: int| 0 <= j < k ==> (#[trigger] working_nodes@[j]).id != id,
                decreases working_nodes@.len() - k,
            {
                k += 1;
            }
            let found_idle = k < working_nodes.len() && working_nodes[k].cpu_allocated == 0
                && working_nodes[k].memory_allocated == 0;
            if !found_idle {
                let ghost before = stale@;
                stale.push(id);
                proof {
                    assert forall|j: int|
                        0 <= j < stale@.len() implies !(idle_working(working_nodes@, #[trigger] stale@[j])
                            && all_idle_with_id(working_nodes@, stale@[j])) by {
                        if j < before.len() {
                            assert(stale@[j] == before[j]);
                        } else {
                            if idle_working(working_nodes@, id) {
                                let x = choose|x: int| 0 <= x < working_nodes@.len() && working_nodes@[x].id == id && is_idle(working_nodes@[x]);
                                assert(working_nodes@[x].id == id);
                                assert(k < working_nodes@.len());
                                assert(working_nodes@[k as int].id == id);
                            }
                        }
                    }
                }
            }
            i += 1;
        }
        let mut s: usize = 0;
        while s < stale.len()
            invariant
                s <= stale@.len(),
                forall|id: u64|
                    idle_since(self.idle_table(), id) is Some ==> idle_since(self.idle_table(), id)
                        == idle_since(t0, id),
                forall|id: u64|
                    (forall|j: int| 0 <= j < s ==> stale@[j] != id) ==> #[trigger] idle_since(
                        self.idle_table(),
                        id,
                    ) == idle_since(t0, id),
                forall|id: u64| idle_since(t0, id) is None ==> #[trigger] idle_since(self.idle_table(), id) is None,
                forall|j: int|
                    0 <= j < stale@.len() ==> !(idle_working(working_nodes@, #[trigger] stale@[j])
                        && all_idle_with_id(working_nodes@, stale@[j])),
                self.scale_down_unneeded_time == old(self).scale_down_unneeded_time,
                self.max_empty_bulk_delete == old(self).max_empty_bulk_delete,
                self.last_scale_up_time == old(self).last_scale_up_time,
                self.scale_up_delay == old(self).scale_up_delay,
            decreases stale@.len() - s,
        {
            let ghost tb = self.idle_table();
            self.forget(stale[s]);
            proof {
                assert forall|id: u64| idle_since(t0, id) is None implies #[trigger] idle_since(self.idle_table(), id) is None by {
                    if id != stale@[s as int] {
                        assert(idle_since(self.idle_table(), id) == idle_since(tb, id));
                    }
                }
            }
            s += 1;
        }
        proof {
            assert forall|id: u64| removable(working_nodes@, t0, id, now_time, self.scale_down_unneeded_time) implies #[trigger] idle_since(
                self.idle_table(),
                id,
            ) == idle_since(t0, id) by {
                assert forall|j: int| 0 <= j < stale@.len() implies stale@[j] != id by {
                    if stale@[j] == id {
                        assert(!(idle_working(working_nodes@, stale@[j]) && all_idle_with_id(working_nodes@, stale@[j])));
                    }
                }
            }
        }
        let ghost t1 = self.idle_table();
        // Pick the nodes idle for long enough; note the newly idle ones.
        let mut chosen: Vec<u64> = Vec::new();
        let mut fresh: Vec<u64> = Vec::new();
        let mut j: usize = 0;
        while j < working_nodes.len() && !(self.max_empty_bulk_delete > 0 && chosen.len() as u64
            == self.max_empty_bulk_delete)
            invariant
                j <= working_nodes@.len(),
                forall|id: u64|
                    idle_since(self.idle_table(), id) is Some ==> idle_since(self.idle_table(), id)
                        == idle_since(t0, id),
                self.scale_down_unneeded_time == old(self).scale_down_unneeded_time,
                self.max_empty_bulk_delete == old(self).max_empty_bulk_delete,
                self.last_scale_up_time == old(self).last_scale_up_time,
                self.scale_up_delay == old(self).scale_up_delay,
                self.max_empty_bulk_delete > 0 ==> chosen@.len() <= self.max_empty_bulk_delete,
                forall|k: int|
                    0 <= k < chosen@.len() ==> {
                        &&& idle_working(working_nodes@, #[trigger] chosen@[k])
                        &&& idle_since(t0, chosen@[k]) is Some
                        &&& now_time >= idle_since(t0, chosen@[k])->0
                            + self.scale_down_unneeded_time
                    },
                forall|id: u64| removable(working_nodes@, t0, id, now_time, self.scale_down_unneeded_time) ==> #[trigger] idle_since(
                    self.idle_table(),
                    id,
                ) == idle_since(t0, id),
                forall|k: int|
                    0 <= k < j && removable(
                        working_nodes@,
                        t0,
                        #[trigger] working_nodes@[k].id,
                        now_time,
                        self.scale_down_unneeded_time,
                    ) ==> chosen@.contains(working_nodes@[k].id),
                forall|id: u64| idle_since(t0, id) is None ==> #[trigger] idle_since(self.idle_table(), id) is None,
                forall|k: int| 0 <= k < fresh@.len() ==> idle_since(self.idle_table(), #[trigger] fresh@[k]) is None,
                forall|k: int| 0 <= k < chosen@.len() ==> idle_since(self.idle_table(), #[trigger] chosen@[k]) is Some,
                forall|k: int|
                    0 <= k < j && is_idle(working_nodes@[k]) && idle_since(t0, #[trigger] working_nodes@[k].id) is None
                        ==> fresh@.contains(working_nodes@[k].id),
                self.idle_table() == t1,
            decreases working_nodes@.len() - j,
        {
            let n = &working_nodes[j];
            if n.cpu_allocated == 0 && n.memory_allocated == 0 {
                let id = n.id;
                match self.find_tracked(id) {
                    None => {
                        let ghost fb = fresh@;
                        fresh.push(id);
                        proof {
                            assert forall|k: int| 0 <= k < fresh@.len() implies idle_since(self.idle_table(), #[trigger] fresh@[k]) is None by {
                                if k < fb.len() {
                                    assert(fresh@[k] == fb[k]);
                                }
                            }
                            assert(fresh@.last() == id);
                            assert forall|k: int|
                                0 <= k < j + 1 && is_idle(working_nodes@[k]) && idle_since(t0, #[trigger] working_nodes@[k].id) is None
                                implies fresh@.contains(working_nodes@[k].id) by {
                                if k < j {
                                    let y = choose|y: int| 0 <= y < fb.len() && fb[y] == working_nodes@[k].id;
                                    assert(fresh@[y] == fb[y]);
                                } else {
                                    assert(fresh@[fb.len() as int] == id);
                                }
                            }
                        }
                    },
                    Some(t) => {
                        if t <= now_time && now_time - t >= self.scale_down_unneeded_time {
                            proof {
                                assert(idle_working(working_nodes@, id)) by {
                                    assert(working_nodes@[j as int].id == id);
                                }
                            }
                            let ghost before = chosen@;
                            chosen.push(id);
                            proof {
                                assert(chosen@.last() == id);
                                assert forall|x: int| 0 <= x < j + 1 && removable(
                                    working_nodes@,
                                    t0,
                                    #[trigger] working_nodes@[x].id,
                                    now_time,
                                    self.scale_down_unneeded_time,
                                ) implies chosen@.contains(working_nodes@[x].id) by {
                                    if x < j {
                                        let y = choose|y: int| 0 <= y < before.len() && before[y] == working_nodes@[x].id;
                                        assert(chosen@[y] == before[y]);
                                    } else {
                                        assert(chosen@[before.len() as int] == id);
                                    }
                                }
                            }
                        }
                    },
                }
            }
            j += 1;
        }
        let mut f: usize = 0;
        while f < fresh.len()
            invariant
                f <= fresh@.len(),
                forall|k: int| 0 <= k < f ==> idle_since(self.idle_table(), #[trigger] fresh@[k]) == Some(now_time),
                forall|id: u64| idle_since(t1, id) is Some ==> #[trigger] idle_since(self.idle_table(), id) is Some,
                self.scale_down_unneeded_time == old(self).scale_down_unneeded_time,
                self.max_empty_bulk_delete == old(self).max_empty_bulk_delete,
                self.last_scale_up_time == old(self).last_scale_up_time,
                self.scale_up_delay == old(self).scale_up_delay,
            decreases fresh@.len() - f,
        {
            let ghost tb = self.idle_table();
            self.node_unneeded_time.push((fresh[f], now_time));
            proof {
                assert(self.idle_table().drop_last() =~= tb);
                assert forall|id: u64| idle_since(t1, id) is Some implies #[trigger] idle_since(self.idle_table(), id) is Some by {
                    if id != fresh@[f as int] {
                        assert(idle_since(self.idle_table(), id) == idle_since(tb, id));
                    }
                }
                assert forall|k: int| 0 <= k < f + 1 implies idle_since(self.idle_table(), #[trigger] fresh@[k]) == Some(now_time) by {
                    if fresh@[k] != fresh@[f as int] {
                        assert(idle_since(self.idle_table(), fresh@[k]) == idle_since(tb, fresh@[k]));
                    }
                }
            }
            f += 1;
        }
        proof {
            assert forall|k: int, x: int| 0 <= k < chosen@.len() && 0 <= x < fresh@.len() implies #[trigger] chosen@[k] != #[trigger] fresh@[x] by {
                assert(idle_since(t1, chosen@[k]) is Some);
                assert(idle_since(t1, fresh@[x]) is None);
            }
        }
        let mut c: usize = 0;
        while c < chosen.len()
            invariant
                c <= chosen@.len(),
                forall|k: int| 0 <= k < fresh@.len() ==> idle_since(self.idle_table(), #[trigger] fresh@[k]) == Some(now_time),
                forall|k: int, x: int| 0 <= k < chosen@.len() && 0 <= x < fresh@.len() ==> #[trigger] chosen@[k] != #[trigger] fresh@[x],
                forall|k: int| 0 <= k < c ==> idle_since(self.idle_table(), #[trigger] chosen@[k]).is_none(),
                self.scale_down_unneeded_time == old(self).scale_down_unneeded_time,
                self.max_empty_bulk_delete == old(self).max_empty_bulk_delete,
                self.last_scale_up_time == old(self).last_scale_up_time,
                self.scale_up_delay == old(self).scale_up_delay,
            decreases chosen@.len() - c,
        {
            let ghost before = self.idle_table();
            self.forget(chosen[c]);
            proof {
                assert forall|k: int| 0 <= k < fresh@.len() implies idle_since(self.idle_table(), #[trigger] fresh@[k]) == Some(now_time) by {
                    assert(chosen@[c as int] != fresh@[k]);
                }
                assert forall|k: int| 0 <= k < c + 1 implies idle_since(self.idle_table(), #[trigger] chosen@[k]).is_none() by {
                    if chosen@[k] != chosen@[c as int] {
                        assert(idle_since(self.idle_table(), chosen@[k]) == idle_since(before, chosen@[k]));
                    }
                }
            }
            c += 1;
        }
        proof {
            assert forall|k: int|
                0 <= k < working_nodes@.len() && is_idle(working_nodes@[k]) && idle_since(t0, #[trigger] working_nodes@[k].id) is None
                    && (self.max_empty_bulk_delete == 0 || chosen@.len() < self.max_empty_bulk_delete)
                implies idle_since(self.idle_table(), working_nodes@[k].id) == Some(now_time) by {
                let x = choose|x: int| 0 <= x < fresh@.len() && fresh@[x] == working_nodes@[k].id;
            }
        }
        self.last_scale_down_time = now_time;
        chosen
    }
}

} // verus!

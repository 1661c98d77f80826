//! Scheduling plug-ins: which nodes can take a pod, and how good each of them is.
use vstd::prelude::*;
use crate::load_model::MAX_RESOURCE;
use crate::node::Node;
use crate::pod::Pod;

verus! {

/// Scores are fixed-point fractions: `SCORE_SCALE` stands for a fully used resource.
pub const SCORE_SCALE: u64 = 1_000_000;

/// `part / total` in units of `SCORE_SCALE`, rounded down; zero for an empty total.
pub open spec fn fraction(part: int, total: int) -> int {
    if total <= 0 {
        0
    } else {
        (part * SCORE_SCALE) / total
    }
}

fn compute_fraction(part: u64, total: u64) -> (r: u64)
    requires
        part <= 2 * MAX_RESOURCE,
    ensures
        r == fraction(part as int, total as int),
        r <= part * SCORE_SCALE,
{
    if total == 0 {
        0
    } else {
        assert(part * SCORE_SCALE <= 2 * MAX_RESOURCE * SCORE_SCALE) by (nonlinear_arith)
            requires
                part <= 2 * MAX_RESOURCE,
        ;
        let num = part * SCORE_SCALE;
        assert(num / total <= num) by (nonlinear_arith)
            requires
                total >= 1,
                num >= 0,
        ;
        num / total
    }
}

/// Whether a node can take a pod: free CPU and memory cover the requests, and the
/// node's memory would stay below `threshold` per mille of its total.
pub open spec fn fits(n: Node, pod: Pod, threshold: u64) -> bool {
    &&& n.free_cpu() >= pod.requested_cpu
    &&& n.free_memory() >= pod.requested_memory
    &&& !n.under_pressure(n.memory_allocated + pod.requested_memory, threshold)
}

/// Indices of the nodes among the first `len` of `nodes` that can take the pod.
pub open spec fn fitting(nodes: Seq<Node>, len: int, pod: Pod, threshold: u64) -> Seq<usize>
    decreases len,
{
    if len <= 0 {
        Seq::empty()
    } else if fits(nodes[len - 1], pod, threshold) {
        fitting(nodes, len - 1, pod, threshold).push((len - 1) as usize)
    } else {
        fitting(nodes, len - 1, pod, threshold)
    }
}

/// Most-requested priority: the CPU and memory fractions the node would have in use
/// after placement, summed; the fuller node scores higher.
pub open spec fn mrp_score(n: Node, pod: Pod) -> int {
    fraction(n.cpu_allocated + pod.requested_cpu, n.cpu_total as int) + fraction(
        n.memory_allocated + pod.requested_memory,
        n.memory_total as int,
    )
}

/// Least-requested priority: the CPU and memory fractions the node would have free
/// after placement, summed; the node left emptier scores higher.
pub open spec fn lrp_score(n: Node, pod: Pod) -> int {
    fraction(left_after(n.free_cpu(), pod.requested_cpu as int), n.cpu_total as int) + fraction(
        left_after(n.free_memory(), pod.requested_memory as int),
        n.memory_total as int,
    )
}

/// What stays free of `free` once `requested` is taken (nothing when it does not fit).
pub open spec fn left_after(free: int, requested: int) -> int {
    if free >= requested {
        free - requested
    } else {
        0
    }
}

/// Index of the first highest score.
pub open spec fn is_best(scores: Seq<u64>, b: int) -> bool {
    &&& 0 <= b < scores.len()
    &&& forall|k: int| 0 <= k < scores.len() ==> scores[k] <= scores[b]
    &&& forall|k: int| 0 <= k < b ==> scores[k] < scores[b]
}

pub fn best_score_index(scores: &Vec<u64>) -> (r: usize)
    requires
        scores@.len() > 0,
    ensures
        is_best(scores@, r as int),
{
    let mut best: usize = 0;
    let mut i: usize = 1;
    while i < scores.len()
        invariant
            1 <= i <= scores@.len(),
            best < i,
            forall|k: int| 0 <= k < i ==> scores@[k] <= scores@[best as int],
            forall|k: int| 0 <= k < best ==> scores@[k] < scores@[best as int],
        decreases scores@.len() - i,
    {
        if scores[i] > scores[best] {
            best = i;
        }
        i += 1;
    }
    best
}

#[derive(Clone, Copy)]
pub struct MRPAlgorithm {}

impl MRPAlgorithm {
    pub fn new() -> (r: Self) {
        MRPAlgorithm {  }
    }
}

#[derive(Clone, Copy)]
pub struct LRPAlgorithm {}

impl LRPAlgorithm {
    pub fn new() -> (r: Self) {
        LRPAlgorithm {  }
    }
}

/// The pair of filter and score that the scheduler runs.
#[derive(Clone, Copy)]
pub enum SchedulerAlgorithm {
    Mrp(MRPAlgorithm),
    Lrp(LRPAlgorithm),
}

pub open spec fn nodes_wf(nodes: Seq<Node>) -> bool {
    forall|i: int| 0 <= i < nodes.len() ==> (#[trigger] nodes[i]).wf()
}

impl SchedulerAlgorithm {
    pub open spec fn score_of(&self, n: Node, pod: Pod) -> int {
        match self {
            SchedulerAlgorithm::Mrp(_) => mrp_score(n, pod),
            SchedulerAlgorithm::Lrp(_) => lrp_score(n, pod),
        }
    }

    /// Whether `node_index` is the first of the candidates with the highest score.
    pub open spec fn is_first_best(&self, nodes: Seq<Node>, candidates: Seq<usize>, pod: Pod, node_index: usize) -> bool {
        exists|b: int|
            0 <= b < candidates.len() && candidates[b] == node_index && (forall|k: int|
                0 <= k < candidates.len() ==> self.score_of(nodes[#[trigger] candidates[k] as int], pod)
                    <= self.score_of(nodes[candidates[b] as int], pod)) && (forall|k: int|
                0 <= k < b ==> self.score_of(nodes[#[trigger] candidates[k] as int], pod) < self.score_of(
                    nodes[candidates[b] as int],
                    pod,
                ))
    }

    /// Indices of the nodes that can take `pod`, in the nodes' order.
    pub fn filter(&self, pod: &Pod, nodes: &Vec<Node>, threshold: u64) -> (r: Vec<usize>)
        requires
            nodes_wf(nodes@),
            pod.wf(),
            threshold <= 1000,
        ensures
            r@ == fitting(nodes@, nodes@.len() as int, *pod, threshold),
            forall|k: int| 0 <= k < r@.len() ==> r@[k] < nodes@.len(),
    {
        let mut out: Vec<usize> = Vec::new();
        let mut i: usize = 0;
        while i < nodes.len()
            invariant
                i <= nodes@.len(),
                nodes_wf(nodes@),
                pod.wf(),
                threshold <= 1000,
                out@ == fitting(nodes@, i as int, *pod, threshold),
                forall|k: int| 0 <= k < out@.len() ==> out@[k] < i,
            decreases nodes@.len() - i,
        {
            assert(nodes@[i as int].wf());
            if nodes[i].can_place_pod(pod.requested_cpu, pod.requested_memory, threshold) {
                out.push(i);
            }
            i += 1;
        }
        out
    }

    /// The score of each candidate node (given by index), in the candidates' order.
    pub fn score(&self, pod: &Pod, nodes: &Vec<Node>, candidates: &Vec<usize>) -> (r: Vec<u64>)
        requires
            nodes_wf(nodes@),
            pod.wf(),
            forall|k: int| 0 <= k < candidates@.len() ==> candidates@[k] < nodes@.len(),
        ensures
            r@.len() == candidates@.len(),
            forall|k: int|
                0 <= k < r@.len() ==> r@[k] == self.score_of(
                    nodes@[#[trigger] candidates@[k] as int],
                    *pod,
                ),
    {
        let mut out: Vec<u64> = Vec::new();
        let mut k: usize = 0;
        while k < candidates.len()
            invariant
                k <= candidates@.len(),
                nodes_wf(nodes@),
                pod.wf(),
                forall|j: int| 0 <= j < candidates@.len() ==> candidates@[j] < nodes@.len(),
                out@.len() == k,
                forall|j: int|
                    0 <= j < k ==> out@[j] == self.score_of(
                        nodes@[#[trigger] candidates@[j] as int],
                        *pod,
                    ),
            decreases candidates@.len() - k,
        {
            let n = &nodes[candidates[k]];
            assert(n.wf());
            let s = match self {
                SchedulerAlgorithm::Mrp(_) => {
                    let c = compute_fraction(n.cpu_allocated + pod.requested_cpu, n.cpu_total);
                    let m = compute_fraction(
                        n.memory_allocated + pod.requested_memory,
                        n.memory_total,
                    );
                    c + m
                },
                SchedulerAlgorithm::Lrp(_) => {
                    let fc = n.get_free_cpu();
                    let fm = n.get_free_memory();
                    let lc: u64 = if fc >= pod.requested_cpu {
                        fc - pod.requested_cpu
                    } else {
                        0
                    };
                    let lm: u64 = if fm >= pod.requested_memory {
                        fm - pod.requested_memory
                    } else {
                        0
                    };
                    let c = compute_fraction(lc, n.cpu_total);
                    let m = compute_fraction(lm, n.memory_total);
                    c + m
                },
            };
            out.push(s);
            k += 1;
        }
        out
    }
}

} // verus!

verus! {

/// A node index is among the candidates exactly when the node can take the pod.
pub proof fn lemma_fitting_members(nodes: Seq<Node>, len: int, pod: Pod, threshold: u64, i: int)
    requires
        0 <= i < len <= nodes.len(),
        nodes.len() <= usize::MAX,
    ensures
        fitting(nodes, len, pod, threshold).contains(i as usize) <==> fits(
            nodes[i],
            pod,
            threshold,
        ),
    decreases len,
{
    let f = fitting(nodes, len - 1, pod, threshold);
    lemma_fitting_below(nodes, len - 1, pod, threshold);
    if i < len - 1 {
        lemma_fitting_members(nodes, len - 1, pod, threshold, i);
        if fits(nodes[len - 1], pod, threshold) {
            assert(f.push((len - 1) as usize).contains(i as usize) <==> f.contains(i as usize)) by {
                let g = f.push((len - 1) as usize);
                if g.contains(i as usize) {
                    let k = choose|k: int| 0 <= k < g.len() && g[k] == i as usize;
                    if k < f.len() {
                        assert(f[k] == i as usize);
                    }
                }
                if f.contains(i as usize) {
                    let k = choose|k: int| 0 <= k < f.len() && f[k] == i as usize;
                    assert(f.push((len - 1) as usize)[k] == i as usize);
                }
            }
        }
    } else {
        if fits(nodes[len - 1], pod, threshold) {
            assert(f.push((len - 1) as usize)[f.len() as int] == (len - 1) as usize);
        } else {
            if f.contains(i as usize) {
                let k = choose|k: int| 0 <= k < f.len() && f[k] == i as usize;
                assert(f[k] < len - 1);
            }
        }
    }
}

proof fn lemma_fitting_below(nodes: Seq<Node>, len: int, pod: Pod, threshold: u64)
    requires
        len <= usize::MAX,
    ensures
        forall|k: int|
            0 <= k < fitting(nodes, len, pod, threshold).len() ==> fitting(
                nodes,
                len,
                pod,
                threshold,
            )[k] < len,
    decreases len,
{
    if len > 0 {
        lemma_fitting_below(nodes, len - 1, pod, threshold);
        let f = fitting(nodes, len - 1, pod, threshold);
        if fits(nodes[len - 1], pod, threshold) {
            let g = f.push((len - 1) as usize);
            assert(((len - 1) as usize) as int == len - 1);
            assert forall|k: int| 0 <= k < g.len() implies g[k] < len by {
                if k < f.len() {
                    assert(g[k] == f[k]);
                }
            }
        }
    }
}

/// A pod whose requests exceed the capacity of every node has no candidate node.
pub proof fn lemma_oversized_pod_has_no_candidate(nodes: Seq<Node>, pod: Pod, threshold: u64)
    requires
        nodes_wf(nodes),
        forall|i: int|
            0 <= i < nodes.len() ==> pod.requested_cpu > (#[trigger] nodes[i]).cpu_total
                || pod.requested_memory > nodes[i].memory_total,
    ensures
        fitting(nodes, nodes.len() as int, pod, threshold).len() == 0,
{
    lemma_no_fit_prefix(nodes, nodes.len() as int, pod, threshold);
}

proof fn lemma_no_fit_prefix(nodes: Seq<Node>, len: int, pod: Pod, threshold: u64)
    requires
        len <= nodes.len(),
        nodes_wf(nodes),
        forall|i: int|
            0 <= i < nodes.len() ==> pod.requested_cpu > (#[trigger] nodes[i]).cpu_total
                || pod.requested_memory > nodes[i].memory_total,
    ensures
        fitting(nodes, len, pod, threshold).len() == 0,
    decreases len,
{
    if len > 0 {
        assert(nodes[len - 1].wf());
        lemma_no_fit_prefix(nodes, len - 1, pod, threshold);
    }
}

/// An empty node whose capacity covers the pod's requests (with the memory staying
/// below the pressure threshold) is always a candidate.
pub proof fn lemma_sufficient_empty_node_is_candidate(
    nodes: Seq<Node>,
    pod: Pod,
    threshold: u64,
    i: int,
)
    requires
        0 <= i < nodes.len(),
        nodes.len() <= usize::MAX,
        nodes[i].cpu_allocated == 0,
        nodes[i].memory_allocated == 0,
        pod.requested_cpu <= nodes[i].cpu_total,
        pod.requested_memory * 1000 < threshold * nodes[i].memory_total,
        pod.requested_memory <= nodes[i].memory_total,
    ensures
        fitting(nodes, nodes.len() as int, pod, threshold).contains(i as usize),
{
    lemma_fitting_members(nodes, nodes.len() as int, pod, threshold, i);
}

} // verus!

verus! {

/// Only a pod's requests matter to the candidate nodes.
pub proof fn lemma_fitting_same_requests(nodes: Seq<Node>, len: int, p: Pod, q: Pod, threshold: u64)
    requires
        p.requested_cpu == q.requested_cpu,
        p.requested_memory == q.requested_memory,
    ensures
        fitting(nodes, len, p, threshold) == fitting(nodes, len, q, threshold),
    decreases len,
{
    if len > 0 {
        lemma_fitting_same_requests(nodes, len - 1, p, q, threshold);
    }
}

} // verus!

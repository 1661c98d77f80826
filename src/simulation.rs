//! The simulated cluster: the API server, scheduler, nodes, metrics server and
//! autoscalers, coupled through one event queue, and the driver API around them.
use vstd::prelude::*;
use crate::api_server::{
    APIServer, Reading, all_in_state, average_reading, overuse_sum, per_million, replica_use,
    replicas_use, sum_reading,
};
use crate::cluster_autoscaler_algorithm::SimpleClusterAutoscalerAlgorithm;
use crate::deployment::{Deployment, PodTemplate, get_replica_count};
use crate::event_queue::{Component, EventQueue, QueuedEvent, sat_add, saturating_sum};
use crate::events::{
    ClusterAutoscalerScan, DeploymentCreateRequest, DeploymentHorizontalAutoscaling, Event,
    FlushUnschedulableQueue, HorizontalAutoscalerCycle, MetricsServerSnapshot, MoveRequest,
    NodeStatusChanged, PodAssigningFailed, PodAssigningRequest, PodAssigningSucceeded,
    PodBackoffRetry, PodMigrationRequest, PodPlacementFailed, PodPlacementRequest,
    PodPlacementSucceeded, PodRemoveRequest, PodRequestAndLimitsChange, RemoveNode,
    SchedulingCycle, UpdatePodsResources, VerticalAutoscalerCycle, AllocateNewDefaultNodes,
    MetricsSnapshot,
};
use crate::horizontal_autoscaler_algorithm::{ReplicaLoad, ResourcesHorizontalAutoscalerAlgorithm};
use crate::load_model::{LoadModel, MAX_RESOURCE};
use crate::metrics_server::MetricsServer;
use crate::node::{Node, NodeState};
use crate::pod::{Pod, PodStatus};
use crate::scheduler::{Decision, Scheduler, UNSCHEDULABLE_QUEUE_FLUSH_TIMEOUT};
use crate::scheduler_algorithm::SchedulerAlgorithm;
use crate::simulation_config::SimulationConfig;
use crate::vertical_autoscaler_algorithm::AutoVerticalAutoscalerAlgorithm;

verus! {

/// The cluster autoscaler: its decision algorithm and the pool of cloud nodes it
/// allocates from.
pub struct ClusterAutoscaler {
    pub algorithm: SimpleClusterAutoscalerAlgorithm,
    pub cloud_nodes_pool: Vec<Node>,
}

/// The cluster's aggregates at one moment. Rates and utilizations are in millionths.
#[derive(Clone, Copy)]
pub struct Metrics {
    pub timestamp: u64,
    pub average_cpu_allocated: u64,
    pub average_memory_allocated: u64,
    pub cpu_allocated_load_rate: u128,
    pub memory_allocated_load_rate: u128,
    pub average_cpu_used: u64,
    pub average_memory_used: u64,
    pub cpu_used_load_rate: u128,
    pub memory_used_load_rate: u128,
    pub pod_migration_count: u64,
    pub memory_overuse_count: u128,
    pub nodes_count: u64,
    pub deployments_cpu_utilization: u128,
    pub deployments_memory_utilization: u128,
    pub summary_pods_count: u64,
}

/// The number of nodes the first `n` node kinds of a configuration ask for.
pub open spec fn configured_nodes(kinds: Seq<crate::simulation_config::NodeConfig>, n: int) -> int
    decreases n,
{
    if n <= 0 {
        0
    } else {
        configured_nodes(kinds, n - 1) + kinds[n - 1].count
    }
}

/// Whether `post` is `pre` followed by one reassignment request per pod of `pods`,
/// in order, each addressed to the API server.
pub open spec fn requests_appended(pre: Seq<QueuedEvent>, post: Seq<QueuedEvent>, pods: Seq<Pod>) -> bool {
    &&& post.len() == pre.len() + pods.len()
    &&& forall|k: int| 0 <= k < pre.len() ==> post[k] == pre[k]
    &&& forall|k: int|
        0 <= k < pods.len() ==> (#[trigger] post[pre.len() + k]).event == Event::PodAssigningRequest(
            PodAssigningRequest { pod: pods[k] },
        ) && post[pre.len() + k].dest == Component::ApiServer
}

/// Whether `ev` asks for a new replica `id` of deployment `dep` to be scheduled.
pub open spec fn minted_request(ev: Event, id: u64, dep: u64) -> bool {
    match ev {
        Event::PodAssigningRequest(r) => r.pod.id == id && r.pod.deployment_id == Some(dep) && r.pod.wf(),
        _ => false,
    }
}

/// The pods of `s`, taken off their node.
pub open spec fn all_detached(s: Seq<Pod>) -> Seq<Pod> {
    Seq::new(s.len(), |p: int| s[p].detached())
}

pub struct K8sSimulation {
    pub config: SimulationConfig,
    pub queue: EventQueue,
    pub api_server: APIServer,
    pub scheduler: Scheduler,
    pub metrics_server: MetricsServer,
    pub cluster_autoscaler: Option<ClusterAutoscaler>,
    pub vertical_autoscaler: Option<AutoVerticalAutoscalerAlgorithm>,
    pub horizontal_autoscaler: Option<ResourcesHorizontalAutoscalerAlgorithm>,
    pub last_node_id: u64,
    /// Period of the metrics snapshots (ms); none are taken while it is zero.
    pub metrics_period: u64,
    pub metrics_log: Vec<Metrics>,
}

impl K8sSimulation {
    pub open spec fn wf(&self) -> bool {
        &&& self.config.wf()
        &&& self.queue.wf()
        &&& self.api_server.wf()
        &&& self.scheduler.wf()
        &&& self.metrics_server.wf()
        &&& (self.cluster_autoscaler matches Some(ca) ==> all_in_state(
            ca.cloud_nodes_pool@,
            NodeState::Working,
        ))
        &&& (self.horizontal_autoscaler matches Some(h) ==> h.targets_bounded())
    }

    /// Whether `post` differs from this simulation in its event queue's pending events
    /// (and emission counters) alone.
    pub open spec fn same_but_queue(&self, post: &K8sSimulation) -> bool {
        &&& post.config == self.config
        &&& post.api_server == self.api_server
        &&& post.scheduler == self.scheduler
        &&& post.metrics_server == self.metrics_server
        &&& post.cluster_autoscaler == self.cluster_autoscaler
        &&& post.vertical_autoscaler == self.vertical_autoscaler
        &&& post.horizontal_autoscaler == self.horizontal_autoscaler
        &&& post.last_node_id == self.last_node_id
        &&& post.metrics_period == self.metrics_period
        &&& post.metrics_log == self.metrics_log
        &&& post.queue.now == self.queue.now
    }

    /// Whether `post` is this simulation with exactly `event` emitted for `dest` after
    /// `delay`, and nothing else changed.
    pub open spec fn only_emits(&self, post: &K8sSimulation, event: Event, dest: Component, delay: u64) -> bool {
        &&& self.same_but_queue(post)
        &&& post.queue.pending() == self.queue.queued(event, dest, delay)
    }

    /// Sends a pod to the scheduler's active queue, starting a scheduling cycle when
    /// the queue was empty.
    fn enqueue_pod(&mut self, pod: Pod)
        requires
            old(self).wf(),
            pod.wf(),
        ensures
            final(self).wf(),
            final(self).queue.now == old(self).queue.now,
            final(self).api_server == old(self).api_server,
            final(self).metrics_server == old(self).metrics_server,
            final(self).config == old(self).config,
            final(self).cluster_autoscaler == old(self).cluster_autoscaler,
            final(self).horizontal_autoscaler == old(self).horizontal_autoscaler,
            final(self).scheduler.active_queue@ == old(self).scheduler.active_queue@.push(pod),
            final(self).scheduler.unschedulable_queue@ == old(self).scheduler.unschedulable_queue@,
            final(self).queue.pending() == (if old(self).scheduler.active_queue@.len() == 0 {
                old(self).queue.queued(Event::SchedulingCycle(SchedulingCycle {  }), Component::Scheduler, 0)
            } else {
                old(self).queue.pending()
            }),
    {
        if self.scheduler.add_pod(pod) {
            self.queue.emit(Event::SchedulingCycle(SchedulingCycle {  }), Component::Scheduler, 0);
        }
    }

    /// Asks the API server to reschedule each of `pods`, in order, without delay.
    fn reassign_all(&mut self, pods: Vec<Pod>)
        requires
            old(self).wf(),
            forall|k: int| 0 <= k < pods@.len() ==> (#[trigger] pods@[k]).wf(),
        ensures
            final(self).wf(),
            old(self).same_but_queue(final(self)),
            requests_appended(old(self).queue.pending(), final(self).queue.pending(), pods@),
    {
        let ghost p0 = pods@;
        let ghost q0 = self.queue.pending();
        let mut pods = pods;
        while pods.len() > 0
            invariant
                self.wf(),
                old(self).same_but_queue(self),
                q0 == old(self).queue.pending(),
                pods@.len() <= p0.len(),
                pods@ == p0.subrange(p0.len() - pods@.len(), p0.len() as int),
                requests_appended(q0, self.queue.pending(), p0.subrange(0, p0.len() - pods@.len())),
                forall|k: int| 0 <= k < pods@.len() ==> (#[trigger] pods@[k]).wf(),
            decreases pods@.len(),
        {
            let ghost before = pods@;
            let ghost qb = self.queue.pending();
            let pod = pods.remove(0);
            proof {
                assert(pod == p0[p0.len() - before.len()]);
                assert(pods@ =~= p0.subrange(p0.len() - pods@.len(), p0.len() as int));
                assert forall|k: int| 0 <= k < pods@.len() implies (#[trigger] pods@[k]).wf() by {
                    assert(pods@[k] == before[k + 1]);
                }
            }
            let ghost gp = pod;
            self.queue.emit(
                Event::PodAssigningRequest(PodAssigningRequest { pod }),
                Component::ApiServer,
                0,
            );
            proof {
                let done = p0.subrange(0, p0.len() - pods@.len());
                let prev = p0.subrange(0, p0.len() - before.len());
                assert(done =~= prev.push(gp));
                let post = self.queue.pending();
                assert forall|k: int| 0 <= k < done.len() implies (#[trigger] post[q0.len() + k]).event
                    == Event::PodAssigningRequest(PodAssigningRequest { pod: done[k] }) && post[q0.len() + k].dest
                    == Component::ApiServer by {
                    if k < prev.len() {
                        assert(post[q0.len() + k] == qb[q0.len() + k]);
                    }
                }
            }
        }
        proof {
            assert(p0.subrange(0, p0.len() as int) =~= p0);
        }
    }

    /// Schedules the backoff retries handed back by the scheduler.
    fn emit_backoffs(&mut self, backoffs: Vec<(Pod, u64)>, became_active: bool)
        requires
            old(self).wf(),
            forall|k: int| 0 <= k < backoffs@.len() ==> (#[trigger] backoffs@[k]).0.wf(),
        ensures
            final(self).wf(),
            final(self).queue.now == old(self).queue.now,
            final(self).queue.pending().len() >= old(self).queue.pending().len(),
            forall|k: int| 0 <= k < old(self).queue.pending().len() ==> final(self).queue.pending()[k] == old(self).queue.pending()[k],
            final(self).api_server == old(self).api_server,
            final(self).scheduler == old(self).scheduler,
    {
        let mut backoffs = backoffs;
        while backoffs.len() > 0
            invariant
                self.wf(),
                self.queue.now == old(self).queue.now,
                self.api_server == old(self).api_server,
                self.scheduler == old(self).scheduler,
                forall|k: int| 0 <= k < backoffs@.len() ==> (#[trigger] backoffs@[k]).0.wf(),
                self.queue.pending().len() >= old(self).queue.pending().len(),
                forall|k: int| 0 <= k < old(self).queue.pending().len() ==> self.queue.pending()[k] == old(self).queue.pending()[k],
            decreases backoffs@.len(),
        {
            let ghost before = backoffs@;
            let (pod, delay) = backoffs.pop().unwrap();
            proof {
                assert(pod == before[before.len() - 1].0);
                assert forall|k: int| 0 <= k < backoffs@.len() implies (#[trigger] backoffs@[k]).0.wf() by {
                    assert(backoffs@[k] == before[k]);
                }
            }
            self.queue.emit(Event::PodBackoffRetry(PodBackoffRetry { pod }), Component::Scheduler, delay);
        }
        if became_active {
            self.queue.emit(Event::SchedulingCycle(SchedulingCycle {  }), Component::Scheduler, 0);
        }
    }

    /// The effect of a node status change: a failure moves the working node, emptied,
    /// to the failed nodes and asks for each former resident to be rescheduled; a
    /// recovery brings a failed node back. Either way a move request follows.
    pub open spec fn post_node_status_changed(&self, e: NodeStatusChanged, post: &K8sSimulation) -> bool {
        let w = self.api_server.working();
        &&& post.queue.pending().last() == (QueuedEvent {
            time: sat_add(self.queue.now, self.config.control_plane_message_delay),
            seq: post.queue.pending().last().seq,
            dest: Component::Scheduler,
            event: Event::MoveRequest(MoveRequest {  }),
        })
        &&& post.queue.pending().len() >= 1
        &&& e.new_status == NodeState::Failed ==> {
            &&& forall|k: int| 0 <= k < post.api_server.working().len() ==> (#[trigger] post.api_server.working()[k]).id != e.node_id
            &&& (exists|k: int| 0 <= k < w.len() && (#[trigger] w[k]).id == e.node_id) ==> exists|k: int, j: int|
                0 <= k < w.len() && 0 <= j < post.api_server.failed().len() && #[trigger] w[k].id == e.node_id
                    && #[trigger] post.api_server.failed()[j].id == e.node_id
                    && post.api_server.failed()[j].resident().len() == 0
                    && post.api_server.failed()[j].loads() == (0int, 0int, 0int, 0int)
                    && requests_appended(self.queue.pending(), post.queue.pending().drop_last(), all_detached(w[k].resident()))
        }
        &&& e.new_status == NodeState::Working ==> {
            &&& (exists|k: int| 0 <= k < self.api_server.failed().len() && (#[trigger] self.api_server.failed()[k]).id == e.node_id)
                ==> exists|k: int, i: int| 0 <= k < self.api_server.failed().len() && 0 <= i < post.api_server.working().len()
                && #[trigger] self.api_server.failed()[k].id == e.node_id
                && #[trigger] post.api_server.working()[i] == (Node { state: NodeState::Working, ..self.api_server.failed()[k] })
                && post.api_server.failed() == self.api_server.failed().remove(k)
            &&& post.queue.pending().drop_last() == self.queue.pending()
        }
    }

    /// The effect of a pod removal: its statistics and placement records are gone, and
    /// the working node the records named no longer holds it.
    pub open spec fn post_pod_remove(&self, pod_id: u64, post: &K8sSimulation) -> bool {
        &&& !crate::metrics_server::has_statistic(post.metrics_server.stats(), pod_id)
        &&& crate::api_server::placed_on(post.api_server.pod_to_node_map@, pod_id).is_none()
        &&& match crate::api_server::placed_on(self.api_server.pod_to_node_map@, pod_id) {
            None => post.api_server.working() == self.api_server.working(),
            Some(node_id) => match crate::api_server::first_node_with_id(self.api_server.working(), node_id, 0) {
                None => post.api_server.working() == self.api_server.working(),
                Some(i) => !crate::node::holds_pod(post.api_server.working()[i as int].resident(), pod_id)
                    && forall|k: int| 0 <= k < post.api_server.working().len() && k != i ==> post.api_server.working()[k] == self.api_server.working()[k],
            },
        }
        &&& post.queue.pending() == self.queue.pending()
    }

    /// The effect of a node removal: it leaves the working nodes and each former
    /// resident is asked to be rescheduled.
    pub open spec fn post_remove_node(&self, node_id: u64, post: &K8sSimulation) -> bool {
        let w = self.api_server.working();
        &&& forall|k: int| 0 <= k < post.api_server.working().len() ==> (#[trigger] post.api_server.working()[k]).id != node_id
        &&& (exists|k: int| 0 <= k < w.len() && (#[trigger] w[k]).id == node_id) ==> exists|k: int|
            0 <= k < w.len() && #[trigger] w[k].id == node_id
                && requests_appended(self.queue.pending(), post.queue.pending(), all_detached(w[k].resident()))
        &&& !(exists|k: int| 0 <= k < w.len() && (#[trigger] w[k]).id == node_id) ==> post.queue.pending() == self.queue.pending()
    }

    /// The effect of a migration request: counted, the pod's records and statistics
    /// dropped, and the pod back in the active queue.
    pub open spec fn post_migration(&self, e: PodMigrationRequest, post: &K8sSimulation) -> bool {
        &&& post.api_server.pod_migration_count == (if self.api_server.pod_migration_count < u64::MAX {
            self.api_server.pod_migration_count + 1
        } else {
            self.api_server.pod_migration_count as int
        })
        &&& crate::api_server::placed_on(post.api_server.pod_to_node_map@, e.pod.id).is_none()
        &&& !crate::metrics_server::has_statistic(post.metrics_server.stats(), e.pod.id)
        &&& post.scheduler.active_queue@ == self.scheduler.active_queue@.push(e.pod)
    }

    /// The effect of an assignment: a placement request to the chosen node when it
    /// still works, or the pod back in the active queue.
    pub open spec fn post_assigning_succeeded(&self, e: PodAssigningSucceeded, post: &K8sSimulation) -> bool {
        if exists|k: int| 0 <= k < self.api_server.working().len() && (#[trigger] self.api_server.working()[k]).id == e.node_id {
            self.only_emits(
                post,
                Event::PodPlacementRequest(PodPlacementRequest { pod: e.pod, node_id: e.node_id }),
                Component::Node(e.node_id),
                self.config.message_delay,
            )
        } else {
            post.scheduler.active_queue@ == self.scheduler.active_queue@.push(e.pod)
                && post.api_server == self.api_server
        }
    }

    /// The effect of creating a deployment: it is recorded with one fresh replica id
    /// per declared replica, and each replica, minted from the template, joins the
    /// active queue.
    pub open spec fn post_deployment_create(&self, d: Deployment, post: &K8sSimulation) -> bool {
        let ids = post.api_server.deployment_to_replicas@.last()@;
        let act = self.scheduler.active_queue@;
        &&& post.api_server.deployments@ == self.api_server.deployments@.push(d)
        &&& post.api_server.deployment_to_replicas@.len() == self.api_server.deployment_to_replicas@.len() + 1
        &&& forall|k: int| 0 <= k < self.api_server.deployment_to_replicas@.len()
            ==> post.api_server.deployment_to_replicas@[k] == self.api_server.deployment_to_replicas@[k]
        &&& ids.len() == d.cnt_replicas
        &&& self.api_server.pod_counter + d.cnt_replicas <= u64::MAX ==> forall|k: int|
            0 <= k < ids.len() ==> #[trigger] ids[k] == self.api_server.pod_counter + 1 + k
        &&& post.scheduler.active_queue@.len() == act.len() + d.cnt_replicas
        &&& forall|k: int| 0 <= k < act.len() ==> post.scheduler.active_queue@[k] == act[k]
        &&& forall|k: int| 0 <= k < d.cnt_replicas ==> (#[trigger] post.scheduler.active_queue@[act.len() + k]).id == ids[k]
            && post.scheduler.active_queue@[act.len() + k].deployment_id == Some(d.id)
    }

    /// The effect of resizing deployment `e.id` to `e.new_cnt_replicas` replicas: the
    /// count changes; a shrink drops the tail of the replica list and asks, last first,
    /// for each dropped replica's removal; a growth appends fresh ids and asks for each
    /// new replica, minted from the template, to be scheduled. Unknown ids change nothing.
    pub open spec fn post_resize(&self, e: DeploymentHorizontalAutoscaling, post: &K8sSimulation) -> bool {
        let deps = self.api_server.deployments@;
        let q0 = self.queue.pending();
        let q1 = post.queue.pending();
        &&& (forall|k: int| 0 <= k < deps.len() ==> (#[trigger] deps[k]).id != e.id) ==> post.api_server == self.api_server
            && q1 == q0
        &&& (exists|k: int| 0 <= k < deps.len() && (#[trigger] deps[k]).id == e.id) ==> exists|d: int|
            0 <= d < deps.len() && #[trigger] deps[d].id == e.id && {
                let old_cnt = deps[d].cnt_replicas;
                let new_cnt = e.new_cnt_replicas;
                let r0 = self.api_server.deployment_to_replicas@[d]@;
                let r1 = post.api_server.deployment_to_replicas@[d]@;
                &&& post.api_server.deployments@ == deps.update(d, Deployment { cnt_replicas: new_cnt, ..deps[d] })
                &&& post.api_server.deployment_to_replicas@.len() == deps.len()
                &&& forall|k: int| 0 <= k < deps.len() && k != d ==> post.api_server.deployment_to_replicas@[k]
                    == self.api_server.deployment_to_replicas@[k]
                &&& forall|k: int| 0 <= k < q0.len() ==> q1[k] == q0[k]
                &&& new_cnt < old_cnt ==> {
                    &&& r1 == r0.subrange(0, new_cnt as int)
                    &&& q1.len() == q0.len() + (old_cnt - new_cnt)
                    &&& forall|j: int| 0 <= j < old_cnt - new_cnt ==> (#[trigger] q1[q0.len() + j]).event
                        == Event::PodRemoveRequest(PodRemoveRequest { pod_id: r0[old_cnt - 1 - j] })
                }
                &&& new_cnt >= old_cnt ==> {
                    &&& r1.len() == new_cnt
                    &&& r1.subrange(0, old_cnt as int) == r0
                    &&& q1.len() == q0.len() + (new_cnt - old_cnt)
                    &&& forall|j: int| 0 <= j < new_cnt - old_cnt ==> minted_request(#[trigger] q1[q0.len() + j].event, r1[old_cnt + j], e.id)
                    &&& self.api_server.pod_counter + (new_cnt - old_cnt) <= u64::MAX ==> forall|j: int|
                        0 <= j < new_cnt - old_cnt ==> #[trigger] r1[old_cnt + j] == self.api_server.pod_counter + 1 + j
                }
            }
    }

    /// Whether `ev` reports the outcome of scheduling `pod` onto the working nodes
    /// `nodes`: failure when no node can take it, otherwise an assignment to the first
    /// best-scoring node that can.
    pub open spec fn scheduling_outcome(&self, pod: Pod, nodes: Seq<Node>, ev: Event) -> bool {
        let cands = crate::scheduler_algorithm::fitting(nodes, nodes.len() as int, pod, self.config.memory_pressure_threshold);
        match ev {
            Event::PodAssigningFailed(f) => cands.len() == 0 && f.pod == pod,
            Event::PodAssigningSucceeded(a) => exists|i: usize|
                cands.contains(i) && i < nodes.len() && self.scheduler.scheduler_algorithm.is_first_best(nodes, cands, pod, i)
                    && a.node_id == nodes[i as int].id && a.pod == (Pod {
                    scheduling_attempts: None,
                    scheduling_timestamp: None,
                    ..pod
                }),
            _ => false,
        }
    }

    /// The effect of a scheduling cycle: the first pod of highest priority leaves the
    /// active queue and its outcome is reported (nothing happens on an empty queue).
    pub open spec fn post_scheduling_cycle(&self, post: &K8sSimulation) -> bool {
        let act = self.scheduler.active_queue@;
        &&& act.len() == 0 ==> post.queue.pending() == self.queue.pending() && post.scheduler.active_queue@ == act
        &&& act.len() > 0 ==> exists|b: int|
            crate::scheduler::is_next(act, b) && post.scheduler.active_queue@ == act.remove(b)
                && post.queue.pending().len() > self.queue.pending().len()
                && self.scheduling_outcome(act[b], self.api_server.working(), post.queue.pending().last().event)
        &&& post.api_server == self.api_server
    }

    /// Whether `post` pushed `event` for `dest` after `delay` as its first new event.
    pub open spec fn emits_first(&self, post: &K8sSimulation, event: Event, dest: Component, delay: u64) -> bool {
        let q = self.queue.pending();
        &&& post.queue.pending().len() > q.len()
        &&& forall|k: int| 0 <= k < q.len() ==> post.queue.pending()[k] == q[k]
        &&& post.queue.pending()[q.len() as int].event == event
        &&& post.queue.pending()[q.len() as int].dest == dest
        &&& post.queue.pending()[q.len() as int].time == sat_add(self.queue.now, delay)
    }

    /// Whether `post` pushed `event` for `dest` after `delay` as its last new event.
    pub open spec fn emits_last(&self, post: &K8sSimulation, event: Event, dest: Component, delay: u64) -> bool {
        let q = self.queue.pending();
        &&& post.queue.pending().len() > q.len()
        &&& forall|k: int| 0 <= k < q.len() ==> post.queue.pending()[k] == q[k]
        &&& post.queue.pending().last().event == event
        &&& post.queue.pending().last().dest == dest
        &&& post.queue.pending().last().time == sat_add(self.queue.now, delay)
    }

    /// The effect of a failed scheduling attempt: the pod, with one more attempt
    /// counted, is listed as unschedulable (stamped now) when no move happened since
    /// its cycle began, and otherwise retried after its backoff.
    pub open spec fn post_assigning_failed(&self, e: PodAssigningFailed, post: &K8sSimulation) -> bool {
        let p = Pod { scheduling_attempts: Some(crate::scheduler::attempts_after(e.pod.scheduling_attempts)), ..e.pod };
        if self.scheduler.goes_unschedulable(e.scheduling_cycle) {
            &&& post.scheduler.unschedulable_queue@ == self.scheduler.unschedulable_queue@.push(
                Pod { scheduling_timestamp: Some(self.queue.now), ..p },
            )
            &&& post.queue.pending() == self.queue.pending()
        } else {
            post.queue.pending() == self.queue.queued(
                Event::PodBackoffRetry(PodBackoffRetry { pod: p }),
                Component::Scheduler,
                crate::scheduler::backoff(
                    p.scheduling_attempts->0,
                    self.config.pod_initial_backoff_duration,
                    self.config.pod_max_backoff_duration,
                ) as u64,
            )
        }
    }

    /// The effect of a placement request: the first working node with that id admits
    /// the pod when it fits (and holds no pod with its id), and success or failure is
    /// reported back; a node that no longer works fails the placement.
    pub open spec fn post_placement_request(&self, e: PodPlacementRequest, post: &K8sSimulation) -> bool {
        let w = self.api_server.working();
        let cnt = crate::deployment::replica_count(self.api_server.deployments@, e.pod.deployment_id);
        match crate::api_server::first_node_with_id(w, e.node_id, 0) {
            None => post.queue.pending() == self.queue.queued(
                Event::PodPlacementFailed(PodPlacementFailed { pod: e.pod, node_id: e.node_id }),
                Component::ApiServer,
                self.config.message_delay,
            ),
            Some(i) => if !crate::node::holds_pod(w[i as int].resident(), e.pod.id) && w[i as int].admits(e.pod, self.queue.now, cnt) {
                &&& post.api_server.working()[i as int].resident() == w[i as int].resident().push(
                    w[i as int].placed(e.pod, self.queue.now, cnt),
                )
                &&& post.queue.pending() == self.queue.queued(
                    Event::PodPlacementSucceeded(PodPlacementSucceeded { pod_id: e.pod.id, node_id: e.node_id }),
                    Component::ApiServer,
                    self.config.message_delay,
                )
            } else {
                &&& post.api_server.working() == w
                &&& post.queue.pending() == self.queue.queued(
                    Event::PodPlacementFailed(PodPlacementFailed { pod: e.pod, node_id: e.node_id }),
                    Component::ApiServer,
                    self.config.message_delay,
                )
            },
        }
    }

    /// The effect of a cluster-autoscaler scan: nothing without an autoscaler; with one,
    /// node allocations are requested only while pods are pending (otherwise only node
    /// removals), and the next scan is scheduled.
    pub open spec fn post_cluster_autoscaler_scan(&self, post: &K8sSimulation) -> bool {
        let q = self.queue.pending();
        &&& self.cluster_autoscaler is None ==> post.queue.pending() == q
        &&& self.cluster_autoscaler is Some ==> {
            &&& self.emits_last(
                post,
                Event::ClusterAutoscalerScan(ClusterAutoscalerScan {  }),
                Component::ClusterAutoscaler,
                self.config.cluster_autoscaler_scan_interval,
            )
            &&& self.scheduler.unschedulable_queue@.len() == 0 ==> forall|j: int|
                q.len() <= j < post.queue.pending().len() - 1 ==> (#[trigger] post.queue.pending()[j]).event is RemoveNode
        }
    }

    /// The effect of a reconciliation tick for node `node_id`: a working node evicts the
    /// pods whose memory no longer fits, each sent back as a migration request (every
    /// former resident either stays or is sent back); a known node gets its next tick.
    pub open spec fn post_update_pods_resources(&self, node_id: u64, post: &K8sSimulation) -> bool {
        let w = self.api_server.working();
        let q = self.queue.pending();
        let q1 = post.queue.pending();
        match crate::api_server::first_node_with_id(w, node_id, 0) {
            Some(i) => {
                &&& self.emits_last(
                    post,
                    Event::UpdatePodsResources(UpdatePodsResources {  }),
                    Component::Node(node_id),
                    self.config.update_pods_resources_period,
                )
                &&& forall|j: int| q.len() <= j < q1.len() - 1 ==> ((#[trigger] q1[j]).event matches Event::PodMigrationRequest(m)
                    && m.source_node_id == node_id && !crate::node::holds_pod(post.api_server.working()[i as int].resident(), m.pod.id))
                &&& forall|k: int| 0 <= k < w[i as int].resident().len() ==> crate::node::holds_pod(
                    post.api_server.working()[i as int].resident(),
                    #[trigger] w[i as int].resident()[k].id,
                ) || exists|j: int| q.len() <= j < q1.len() - 1 && ((#[trigger] q1[j]).event matches Event::PodMigrationRequest(m)
                    && m.pod.id == w[i as int].resident()[k].id)
            },
            None => post.api_server == self.api_server,
        }
    }

    /// What delivering `event` to `dest` does, from this state to `post`.
    pub open spec fn handled(&self, dest: Component, event: Event, post: &K8sSimulation) -> bool {
        match event {
            Event::PodAssigningRequest(x) => post.scheduler.active_queue@ == self.scheduler.active_queue@.push(x.pod),
            Event::PodAssigningSucceeded(x) => self.post_assigning_succeeded(x, post),
            Event::PodAssigningFailed(x) => self.post_assigning_failed(x, post),
            Event::PodPlacementRequest(x) => self.post_placement_request(x, post),
            Event::PodPlacementSucceeded(x) => self.post_placement_succeeded(x, post),
            Event::PodPlacementFailed(x) => post.scheduler.active_queue@ == self.scheduler.active_queue@.push(x.pod),
            Event::PodMigrationRequest(x) => self.post_migration(x, post),
            Event::PodRequestAndLimitsChange(_) => dest is Node || post == self,
            Event::AllocateNewDefaultNodes(_) => post.api_server.working().len() >= self.api_server.working().len(),
            Event::RemoveNode(x) => self.post_remove_node(x.node_id, post),
            Event::NodeStatusChanged(x) => self.post_node_status_changed(x, post),
            Event::UpdatePodsResources(_) => match dest {
                Component::Node(id) => self.post_update_pods_resources(id, post),
                _ => post == self,
            },
            Event::SchedulingCycle(_) => self.post_scheduling_cycle(post),
            Event::PodBackoffRetry(x) => post.scheduler.active_queue@ == self.scheduler.active_queue@.push(x.pod),
            Event::FlushUnschedulableQueue(_) => self.emits_first(
                post,
                Event::FlushUnschedulableQueue(FlushUnschedulableQueue {  }),
                Component::Scheduler,
                UNSCHEDULABLE_QUEUE_FLUSH_TIMEOUT,
            ),
            Event::MoveRequest(_) => post.scheduler.unschedulable_queue@.len() == 0
                && post.scheduler.moving_cycle == Some(self.scheduler.scheduling_cycle),
            Event::PodRemoveRequest(x) => self.post_pod_remove(x.pod_id, post),
            Event::ClusterAutoscalerScan(_) => self.post_cluster_autoscaler_scan(post),
            Event::MetricsServerSnapshot(_) => self.emits_last(
                post,
                Event::MetricsServerSnapshot(MetricsServerSnapshot {  }),
                Component::MetricsServer,
                self.config.metrics_server_interval,
            ),
            Event::VerticalAutoscalerCycle(_) => post.api_server == self.api_server,
            Event::HorizontalAutoscalerCycle(_) => post.api_server == self.api_server,
            Event::MetricsSnapshot(_) => post.metrics_log@.len() == self.metrics_log@.len() + 1,
            Event::DeploymentCreateRequest(x) => self.post_deployment_create(x.deployment, post),
            Event::DeploymentHorizontalAutoscaling(x) => self.post_resize(x, post),
        }
    }

    /// Whether `mid` is this state with the earliest pending event `e` taken out of
    /// the queue and the clock moved to its time.
    pub open spec fn popped(&self, mid: &K8sSimulation, e: QueuedEvent) -> bool {
        &&& mid.config == self.config
        &&& mid.api_server == self.api_server
        &&& mid.scheduler == self.scheduler
        &&& mid.metrics_server == self.metrics_server
        &&& mid.cluster_autoscaler == self.cluster_autoscaler
        &&& mid.vertical_autoscaler == self.vertical_autoscaler
        &&& mid.horizontal_autoscaler == self.horizontal_autoscaler
        &&& mid.metrics_log == self.metrics_log
        &&& mid.queue.now == e.time
        &&& exists|i: int| 0 <= i < self.queue.pending().len() && self.queue.pending()[i] == e
            && mid.queue.pending() == self.queue.pending().remove(i)
            && forall|k: int| 0 <= k < self.queue.pending().len() ==> crate::event_queue::before(e, #[trigger] self.queue.pending()[k])
    }

    /// The effect of a placement success: the records place the pod on that node.
    pub open spec fn post_placement_succeeded(&self, e: PodPlacementSucceeded, post: &K8sSimulation) -> bool {
        &&& crate::api_server::placed_on(post.api_server.pod_to_node_map@, e.pod_id) == Some(e.node_id)
        &&& forall|id: u64| id != e.pod_id ==> crate::api_server::placed_on(post.api_server.pod_to_node_map@, id)
            == crate::api_server::placed_on(self.api_server.pod_to_node_map@, id)
        &&& post.api_server.working() == self.api_server.working()
        &&& post.queue.pending() == self.queue.pending()
    }

    fn on_pod_placement_succeeded(&mut self, e: PodPlacementSucceeded)
        requires
            old(self).wf(),
        ensures
            final(self).wf(),
            final(self).queue.now == old(self).queue.now,
            old(self).post_placement_succeeded(e, final(self)),
    {
        self.api_server.set_pod_node(e.pod_id, e.node_id);
    }

    fn on_node_status_changed(&mut self, e: NodeStatusChanged)
        requires
            old(self).wf(),
        ensures
            final(self).wf(),
            final(self).queue.now == old(self).queue.now,
            old(self).post_node_status_changed(e, final(self)),
    {
        let ghost w = self.api_server.working();
        if e.new_status == NodeState::Working {
            let _ = self.api_server.recover_node(e.node_id);
        } else {
            let pods = self.api_server.crash_node(e.node_id);
            proof {
                if exists|k: int| 0 <= k < w.len() && (#[trigger] w[k]).id == e.node_id {
                    let (k, j) = choose|k: int, j: int| 0 <= k < w.len() && 0 <= j < self.api_server.failed().len()
                        && #[trigger] w[k].id == e.node_id && #[trigger] self.api_server.failed()[j].id == e.node_id
                        && self.api_server.failed()[j].resident().len() == 0
                        && self.api_server.failed()[j].loads() == (0int, 0int, 0int, 0int)
                        && pods@.len() == w[k].resident().len()
                        && forall|p: int| 0 <= p < pods@.len() ==> #[trigger] pods@[p] == w[k].resident()[p].detached();
                    assert(pods@ =~= all_detached(w[k].resident()));
                }
            }
            let ghost q1 = self.queue.pending();
            let ghost a1 = self.api_server;
            self.reassign_all(pods);
        }
        let ghost q2 = self.queue.pending();
        self.queue.emit(
            Event::MoveRequest(MoveRequest {  }),
            Component::Scheduler,
            self.config.control_plane_message_delay,
        );
        proof {
            assert(self.queue.pending().drop_last() =~= q2);
        }
    }

    fn on_pod_assigning_succeeded(&mut self, e: PodAssigningSucceeded)
        requires
            old(self).wf(),
            e.pod.wf(),
        ensures
            final(self).wf(),
            final(self).queue.now == old(self).queue.now,
            old(self).post_assigning_succeeded(e, final(self)),
    {
        match self.api_server.find_working(e.node_id) {
            None => self.enqueue_pod(e.pod),
            Some(_) => {
                let node_id = e.node_id;
                self.queue.emit(
                    Event::PodPlacementRequest(PodPlacementRequest { pod: e.pod, node_id }),
                    Component::Node(node_id),
                    self.config.message_delay,
                );
            },
        }
    }

    fn on_pod_remove_request(&mut self, pod_id: u64)
        requires
            old(self).wf(),
        ensures
            final(self).wf(),
            final(self).queue.now == old(self).queue.now,
            old(self).post_pod_remove(pod_id, final(self)),
    {
        self.metrics_server.clear_pod_statistics(pod_id);
        self.api_server.remove_pod(pod_id);
    }

    fn on_remove_node(&mut self, node_id: u64)
        requires
            old(self).wf(),
        ensures
            final(self).wf(),
            final(self).queue.now == old(self).queue.now,
            old(self).post_remove_node(node_id, final(self)),
    {
        let ghost w = self.api_server.working();
        let pods = self.api_server.remove_node(node_id);
        proof {
            if exists|k: int| 0 <= k < w.len() && (#[trigger] w[k]).id == node_id {
                let k = choose|k: int| 0 <= k < w.len() && #[trigger] w[k].id == node_id
                    && pods@.len() == w[k].resident().len()
                    && forall|p: int| 0 <= p < pods@.len() ==> #[trigger] pods@[p] == w[k].resident()[p].detached();
                assert(pods@ =~= all_detached(w[k].resident()));
            }
        }
        let ghost q0 = self.queue.pending();
        let ghost n = pods@.len();
        self.reassign_all(pods);
        proof {
            if n == 0 {
                assert(self.queue.pending() =~= q0);
            }
        }
    }

    fn on_deployment_create(&mut self, deployment: Deployment)
        requires
            old(self).wf(),
            deployment.wf(),
        ensures
            final(self).wf(),
            final(self).queue.now == old(self).queue.now,
            old(self).post_deployment_create(deployment, final(self)),
    {
        let ghost a0 = self.api_server;
        let ghost act0 = self.scheduler.active_queue@;
        let mut replicas: Vec<u64> = Vec::new();
        let mut i: u64 = 0;
        while i < deployment.cnt_replicas
            invariant
                self.wf(),
                self.queue.now == old(self).queue.now,
                deployment.wf(),
                i <= deployment.cnt_replicas,
                replicas@.len() == i,
                self.api_server.deployments@ == a0.deployments@,
                self.api_server.deployment_to_replicas@ == a0.deployment_to_replicas@,
                a0 == old(self).api_server,
                act0 == old(self).scheduler.active_queue@,
                a0.pod_counter + i <= u64::MAX ==> self.api_server.pod_counter == a0.pod_counter + i,
                a0.pod_counter + i <= u64::MAX ==> forall|k: int| 0 <= k < i ==> #[trigger] replicas@[k] == a0.pod_counter + 1 + k,
                self.scheduler.active_queue@.len() == act0.len() + i,
                forall|k: int| 0 <= k < act0.len() ==> self.scheduler.active_queue@[k] == act0[k],
                forall|k: int|
                    0 <= k < i ==> (#[trigger] self.scheduler.active_queue@[act0.len() + k]).id == replicas@[k]
                        && self.scheduler.active_queue@[act0.len() + k].deployment_id == Some(deployment.id),
            decreases deployment.cnt_replicas - i,
        {
            let ghost actb = self.scheduler.active_queue@;
            let id = self.api_server.generate_pod_id();
            let pod = deployment.create_new_replica(id);
            self.enqueue_pod(pod);
            let ghost rb = replicas@;
            replicas.push(id);
            proof {
                assert forall|k: int| 0 <= k < i + 1 implies (#[trigger] self.scheduler.active_queue@[act0.len() + k]).id == replicas@[k]
                    && self.scheduler.active_queue@[act0.len() + k].deployment_id == Some(deployment.id) by {
                    if k < i {
                        assert(self.scheduler.active_queue@[act0.len() + k] == actb[act0.len() + k]);
                        assert(replicas@[k] == rb[k]);
                    }
                }
                if a0.pod_counter + i + 1 <= u64::MAX {
                    assert forall|k: int| 0 <= k < i + 1 implies #[trigger] replicas@[k] == a0.pod_counter + 1 + k by {
                        if k < i {
                            assert(replicas@[k] == rb[k]);
                        }
                    }
                }
            }
            i += 1;
        }
        let ghost a = self.api_server;
        self.api_server.deployments.push(deployment);
        self.api_server.deployment_to_replicas.push(replicas);
        proof {
            let s = self.api_server;
            assert forall|k: int| 0 <= k < s.deployments@.len() implies (#[trigger] s.deployments@[k]).wf() && s.deployment_to_replicas@[k]@.len()
                == s.deployments@[k].cnt_replicas by {
                if k < a.deployments@.len() {
                    assert(s.deployments@[k] == a.deployments@[k]);
                    assert(s.deployment_to_replicas@[k] == a.deployment_to_replicas@[k]);
                }
            }
        }
    }

    fn find_deployment(&self, id: u64) -> (r: Option<usize>)
        ensures
            r matches Some(d) ==> d < self.api_server.deployments@.len() && self.api_server.deployments@[d as int].id == id,
            r is None ==> forall|k: int| 0 <= k < self.api_server.deployments@.len() ==> (#[trigger] self.api_server.deployments@[k]).id != id,
    {
        let mut d: usize = 0;
        while d < self.api_server.deployments.len()
            invariant
                d <= self.api_server.deployments@.len(),
                forall|k: int| 0 <= k < d ==> (#[trigger] self.api_server.deployments@[k]).id != id,
            decreases self.api_server.deployments@.len() - d,
        {
            if self.api_server.deployments[d].id == id {
                return Some(d);
            }
            d += 1;
        }
        None
    }

    /// Resizes deployment `e.id` to `e.new_cnt_replicas` replicas: the last replicas
    /// are removed when it shrinks, new ones minted when it grows.
    fn on_deployment_horizontal_autoscaling(&mut self, e: DeploymentHorizontalAutoscaling)
        requires
            old(self).wf(),
        ensures
            final(self).wf(),
            final(self).queue.now == old(self).queue.now,
            old(self).post_resize(e, final(self)),
    {
        let ghost q0 = self.queue.pending();
        let d = match self.find_deployment(e.id) {
            None => {
                return ;
            },
            Some(d) => d,
        };
        let ghost a = self.api_server;
        let deployment = self.api_server.deployments.remove(d);
        let mut replicas = self.api_server.deployment_to_replicas.remove(d);
        let ghost r0 = replicas@;
        proof {
            assert(deployment == a.deployments@[d as int]);
            assert(replicas == a.deployment_to_replicas@[d as int]);
            assert(deployment.wf());
        }
        let old_cnt = deployment.cnt_replicas;
        let new_cnt = e.new_cnt_replicas;
        if new_cnt < old_cnt {
            let mut k: u64 = 0;
            while k < old_cnt - new_cnt
                invariant
                    self.config.wf(),
                    self.queue.wf(),
                    self.queue.now == old(self).queue.now,
                    k <= old_cnt - new_cnt,
                    replicas@.len() == old_cnt - k,
                    self.api_server.deployments@ == a.deployments@.remove(d as int),
                    self.api_server.deployment_to_replicas@ == a.deployment_to_replicas@.remove(d as int),
                    all_in_state(self.api_server.working(), NodeState::Working),
                    all_in_state(self.api_server.failed(), NodeState::Failed),
                    self.scheduler == old(self).scheduler,
                    self.metrics_server == old(self).metrics_server,
                    self.cluster_autoscaler == old(self).cluster_autoscaler,
                    self.horizontal_autoscaler == old(self).horizontal_autoscaler,
                    a == old(self).api_server,
                    r0 == a.deployment_to_replicas@[d as int]@,
                    r0.len() == old_cnt,
                    q0 == old(self).queue.pending(),
                    replicas@ == r0.subrange(0, old_cnt - k),
                    self.queue.pending().len() == q0.len() + k,
                    forall|j: int| 0 <= j < q0.len() ==> self.queue.pending()[j] == q0[j],
                    forall|j: int| 0 <= j < k ==> (#[trigger] self.queue.pending()[q0.len() + j]).event
                        == Event::PodRemoveRequest(PodRemoveRequest { pod_id: r0[old_cnt - 1 - j] }),
                decreases old_cnt - new_cnt - k,
            {
                let ghost qb = self.queue.pending();
                let pod_id = replicas.pop().unwrap();
                proof {
                    assert(pod_id == r0[old_cnt - 1 - k]);
                    assert(replicas@ =~= r0.subrange(0, old_cnt - k - 1));
                }
                self.queue.emit(
                    Event::PodRemoveRequest(PodRemoveRequest { pod_id }),
                    Component::ApiServer,
                    self.config.message_delay,
                );
                proof {
                    assert forall|j: int| 0 <= j < k + 1 implies (#[trigger] self.queue.pending()[q0.len() + j]).event
                        == Event::PodRemoveRequest(PodRemoveRequest { pod_id: r0[old_cnt - 1 - j] }) by {
                        if j < k {
                            assert(self.queue.pending()[q0.len() + j] == qb[q0.len() + j]);
                        }
                    }
                }
                k += 1;
            }
        } else {
            let mut k: u64 = 0;
            while k < new_cnt - old_cnt
                invariant
                    self.config.wf(),
                    self.queue.wf(),
                    self.queue.now == old(self).queue.now,
                    deployment.wf(),
                    k <= new_cnt - old_cnt,
                    replicas@.len() == old_cnt + k,
                    self.api_server.deployments@ == a.deployments@.remove(d as int),
                    self.api_server.deployment_to_replicas@ == a.deployment_to_replicas@.remove(d as int),
                    all_in_state(self.api_server.working(), NodeState::Working),
                    all_in_state(self.api_server.failed(), NodeState::Failed),
                    self.scheduler == old(self).scheduler,
                    self.metrics_server == old(self).metrics_server,
                    self.cluster_autoscaler == old(self).cluster_autoscaler,
                    self.horizontal_autoscaler == old(self).horizontal_autoscaler,
                    a == old(self).api_server,
                    r0 == a.deployment_to_replicas@[d as int]@,
                    r0.len() == old_cnt,
                    q0 == old(self).queue.pending(),
                    deployment == a.deployments@[d as int],
                    deployment.id == e.id,
                    replicas@.subrange(0, old_cnt as int) == r0,
                    a.pod_counter + k <= u64::MAX ==> self.api_server.pod_counter == a.pod_counter + k,
                    a.pod_counter + k <= u64::MAX ==> forall|j: int| 0 <= j < k ==> #[trigger] replicas@[old_cnt + j] == a.pod_counter + 1 + j,
                    self.queue.pending().len() == q0.len() + k,
                    forall|j: int| 0 <= j < q0.len() ==> self.queue.pending()[j] == q0[j],
                    forall|j: int| 0 <= j < k ==> minted_request(#[trigger] self.queue.pending()[q0.len() + j].event, replicas@[old_cnt + j], e.id),
                decreases new_cnt - old_cnt - k,
            {
                let ghost qb = self.queue.pending();
                let ghost rb = replicas@;
                let id = self.api_server.generate_pod_id();
                let pod = deployment.create_new_replica(id);
                let ghost gp = pod;
                self.queue.emit(
                    Event::PodAssigningRequest(PodAssigningRequest { pod }),
                    Component::ApiServer,
                    self.config.message_delay,
                );
                replicas.push(id);
                proof {
                    assert(self.queue.pending()[q0.len() + k].event == Event::PodAssigningRequest(PodAssigningRequest { pod: gp }));
                    assert(replicas@[old_cnt + k] == id);
                    assert(replicas@.subrange(0, old_cnt as int) =~= rb.subrange(0, old_cnt as int));
                    assert forall|j: int| 0 <= j < k + 1 implies minted_request(#[trigger] self.queue.pending()[q0.len() + j].event, replicas@[old_cnt + j], e.id) by {
                        if j < k {
                            assert(self.queue.pending()[q0.len() + j] == qb[q0.len() + j]);
                            assert(replicas@[old_cnt + j] == rb[old_cnt + j]);
                        }
                    }
                    if a.pod_counter + k + 1 <= u64::MAX {
                        assert forall|j: int| 0 <= j < k + 1 implies #[trigger] replicas@[old_cnt + j] == a.pod_counter + 1 + j by {
                            if j < k {
                                assert(replicas@[old_cnt + j] == rb[old_cnt + j]);
                            }
                        }
                    }
                }
                k += 1;
            }
        }
        let mut deployment = deployment;
        deployment.cnt_replicas = new_cnt;
        let ghost nd = deployment;
        let ghost nr = replicas;
        self.api_server.deployments.insert(d, deployment);
        self.api_server.deployment_to_replicas.insert(d, replicas);
        proof {
            assert(self.api_server.deployments@ =~= a.deployments@.update(d as int, nd));
            assert(self.api_server.deployment_to_replicas@ =~= a.deployment_to_replicas@.update(d as int, nr));
            let s = self.api_server;
            assert forall|k: int| 0 <= k < s.deployments@.len() implies (#[trigger] s.deployments@[k]).wf() && s.deployment_to_replicas@[k]@.len()
                == s.deployments@[k].cnt_replicas by {
                if k != d {
                    assert(s.deployments@[k] == a.deployments@[k]);
                    assert(s.deployment_to_replicas@[k] == a.deployment_to_replicas@[k]);
                }
            }
        }
    }

    fn on_pod_migration_request(&mut self, e: PodMigrationRequest)
        requires
            old(self).wf(),
            e.pod.wf(),
        ensures
            final(self).wf(),
            final(self).queue.now == old(self).queue.now,
            old(self).post_migration(e, final(self)),
    {
        if self.api_server.pod_migration_count < u64::MAX {
            self.api_server.pod_migration_count = self.api_server.pod_migration_count + 1;
        }
        self.metrics_server.clear_pod_statistics(e.pod.id);
        self.api_server.remove_pod(e.pod.id);
        self.enqueue_pod(e.pod);
    }

    fn on_scheduling_cycle(&mut self)
        requires
            old(self).wf(),
        ensures
            final(self).wf(),
            final(self).queue.now == old(self).queue.now,
            old(self).post_scheduling_cycle(final(self)),
    {
        let delay = self.config.control_plane_message_delay;
        let working_nonempty = self.api_server.working_nodes.len() > 0;
        let ghost pre = *self;
        let decision = self.scheduler.schedule_next_pod(&self.api_server.working_nodes, self.config.memory_pressure_threshold);
        proof {
            if pre.scheduler.active_queue@.len() > 0 {
                let b = choose|b: int|
                    crate::scheduler::is_next(pre.scheduler.active_queue@, b) && self.scheduler.active_queue@
                        == pre.scheduler.active_queue@.remove(b) && (match decision {
                        Some(Decision::Assigned { pod, node_index }) => pod == (Pod {
                            scheduling_attempts: None,
                            scheduling_timestamp: None,
                            ..pre.scheduler.active_queue@[b]
                        }),
                        Some(Decision::Failed { pod, scheduling_cycle }) => pod == pre.scheduler.active_queue@[b],
                        None => true,
                    });
                crate::scheduler_algorithm::lemma_fitting_same_requests(
                    pre.api_server.working(),
                    pre.api_server.working().len() as int,
                    pre.scheduler.active_queue@[b],
                    Pod { scheduling_attempts: None, scheduling_timestamp: None, ..pre.scheduler.active_queue@[b] },
                    pre.config.memory_pressure_threshold,
                );
            }
        }
        match decision {
            None => {},
            Some(Decision::Failed { pod, scheduling_cycle }) => {
                if working_nonempty {
                    self.queue.emit(Event::SchedulingCycle(SchedulingCycle {  }), Component::Scheduler, delay);
                }
                self.queue.emit(
                    Event::PodAssigningFailed(PodAssigningFailed { pod, scheduling_cycle }),
                    Component::Scheduler,
                    delay + delay,
                );
            },
            Some(Decision::Assigned { pod, node_index }) => {
                let node_id = self.api_server.working_nodes[node_index].id;
                if working_nonempty {
                    self.queue.emit(Event::SchedulingCycle(SchedulingCycle {  }), Component::Scheduler, delay);
                }
                self.queue.emit(
                    Event::PodAssigningSucceeded(PodAssigningSucceeded { pod, node_id }),
                    Component::ApiServer,
                    delay + delay,
                );
            },
        }
    }

    fn on_pod_assigning_failed(&mut self, e: PodAssigningFailed)
        requires
            old(self).wf(),
            e.pod.wf(),
        ensures
            final(self).wf(),
            final(self).queue.now == old(self).queue.now,
            old(self).post_assigning_failed(e, final(self)),
    {
        match self.scheduler.add_pod_to_unschedulable(
            e.pod,
            e.scheduling_cycle,
            self.queue.now,
            self.config.pod_initial_backoff_duration,
            self.config.pod_max_backoff_duration,
        ) {
            None => {},
            Some((pod, d)) => {
                self.queue.emit(Event::PodBackoffRetry(PodBackoffRetry { pod }), Component::Scheduler, d);
            },
        }
    }

    fn on_flush_unschedulable_queue(&mut self)
        requires
            old(self).wf(),
        ensures
            final(self).wf(),
            final(self).queue.now == old(self).queue.now,
            old(self).emits_first(final(self), Event::FlushUnschedulableQueue(FlushUnschedulableQueue {  }), Component::Scheduler, UNSCHEDULABLE_QUEUE_FLUSH_TIMEOUT),
    {
        self.queue.emit(
            Event::FlushUnschedulableQueue(FlushUnschedulableQueue {  }),
            Component::Scheduler,
            UNSCHEDULABLE_QUEUE_FLUSH_TIMEOUT,
        );
        let (backoffs, became_active) = self.scheduler.flush_unschedulable_queue(
            self.queue.now,
            self.config.pod_initial_backoff_duration,
            self.config.pod_max_backoff_duration,
        );
        self.emit_backoffs(backoffs, became_active);
    }

    fn on_move_request(&mut self)
        requires
            old(self).wf(),
        ensures
            final(self).wf(),
            final(self).queue.now == old(self).queue.now,
            final(self).scheduler.unschedulable_queue@.len() == 0,
            final(self).scheduler.moving_cycle == Some(old(self).scheduler.scheduling_cycle),
    {
        let was_empty = self.scheduler.active_queue.len() == 0;
        let (backoffs, _) = self.scheduler.move_all_to_active_or_backoff(
            self.queue.now,
            self.config.pod_initial_backoff_duration,
            self.config.pod_max_backoff_duration,
        );
        let became_active = was_empty && self.scheduler.active_queue.len() > 0;
        self.emit_backoffs(backoffs, became_active);
    }

    fn on_pod_placement_request(&mut self, e: PodPlacementRequest)
        requires
            old(self).wf(),
            e.pod.wf(),
        ensures
            final(self).wf(),
            final(self).queue.now == old(self).queue.now,
            old(self).post_placement_request(e, final(self)),
    {
        let node_id = e.node_id;
        let pod_id = e.pod.id;
        let i = match self.api_server.find_working(node_id) {
            None => {
                self.queue.emit(
                    Event::PodPlacementFailed(PodPlacementFailed { pod: e.pod, node_id }),
                    Component::ApiServer,
                    self.config.message_delay,
                );
                return ;
            },
            Some(i) => i,
        };
        proof {
            assert(crate::api_server::first_node_with_id(self.api_server.working(), node_id, 0) == Some(i));
        }
        if self.api_server.working_nodes[i].find_pod(pod_id).is_some() {
            self.queue.emit(
                Event::PodPlacementFailed(PodPlacementFailed { pod: e.pod, node_id }),
                Component::ApiServer,
                self.config.message_delay,
            );
            return ;
        }
        let cnt = get_replica_count(&self.api_server.deployments, e.pod.deployment_id);
        let ghost w = self.api_server.working();
        let mut node = self.api_server.working_nodes.remove(i);
        proof {
            assert(node == w[i as int]);
        }
        let res = node.add_pod(e.pod, self.queue.now, cnt);
        let ghost nn = node;
        self.api_server.working_nodes.insert(i, node);
        proof {
            assert(self.api_server.working()[i as int] == nn);
            assert forall|k: int| 0 <= k < self.api_server.working().len() implies (#[trigger] self.api_server.working()[k]).wf()
                && self.api_server.working()[k].state == NodeState::Working by {
                if k != i {
                    assert(self.api_server.working()[k] == w[k]);
                }
            }
        }
        match res {
            None => {
                proof {
                    assert(!crate::node::holds_pod(w[i as int].resident(), e.pod.id));
                    assert(w[i as int].admits(e.pod, old(self).queue.now, cnt));
                    assert(self.api_server.working()[i as int].resident() == w[i as int].resident().push(
                        w[i as int].placed(e.pod, old(self).queue.now, cnt)));
                }
                self.queue.emit(
                    Event::PodPlacementSucceeded(PodPlacementSucceeded { pod_id, node_id }),
                    Component::ApiServer,
                    self.config.message_delay,
                );
                proof {
                    assert(self.queue.pending() == old(self).queue.queued(
                        Event::PodPlacementSucceeded(PodPlacementSucceeded { pod_id: e.pod.id, node_id: e.node_id }),
                        Component::ApiServer,
                        old(self).config.message_delay,
                    ));
                    assert(crate::api_server::first_node_with_id(old(self).api_server.working(), e.node_id, 0) == Some(i));
                    assert(w == old(self).api_server.working());
                }
            },
            Some(pod) => {
                proof {
                    assert(self.api_server.working() =~= w);
                }
                self.queue.emit(
                    Event::PodPlacementFailed(PodPlacementFailed { pod, node_id }),
                    Component::ApiServer,
                    self.config.message_delay,
                );
            },
        }
    }

    fn on_update_pods_resources(&mut self, node_id: u64)
        requires
            old(self).wf(),
        ensures
            final(self).wf(),
            final(self).queue.now == old(self).queue.now,
            old(self).post_update_pods_resources(node_id, final(self)),
    {
        let ghost q0 = self.queue.pending();
        match self.api_server.find_working(node_id) {
            Some(i) => {
                let ghost w = self.api_server.working();
                let mut node = self.api_server.working_nodes.remove(i);
                proof {
                    assert(node == w[i as int]);
                }
                let evicted = node.update_pods_resources(self.queue.now, &self.api_server.deployments);
                let ghost nn = node;
                self.api_server.working_nodes.insert(i, node);
                proof {
                    assert forall|k: int| 0 <= k < self.api_server.working().len() implies (#[trigger] self.api_server.working()[k]).wf()
                        && self.api_server.working()[k].state == NodeState::Working by {
                        if k != i {
                            assert(self.api_server.working()[k] == w[k]);
                        }
                    }
                }
                let mut evicted = evicted;
                let ghost ev0 = evicted@;
                let ghost a1 = self.api_server;
                proof {
                    assert(a1.working()[i as int] == nn);
                }
                while evicted.len() > 0
                    invariant
                        self.wf(),
                        self.api_server == a1,
                        self.config == old(self).config,
                        a1.working()[i as int] == nn,
                        i < a1.working().len(),
                        self.queue.now == old(self).queue.now,
                        forall|k: int| 0 <= k < evicted@.len() ==> (#[trigger] evicted@[k]).wf(),
                        q0 == old(self).queue.pending(),
                        evicted@.len() <= ev0.len(),
                        evicted@ == ev0.subrange(0, evicted@.len() as int),
                        self.queue.pending().len() == q0.len() + (ev0.len() - evicted@.len()),
                        forall|j: int| 0 <= j < q0.len() ==> self.queue.pending()[j] == q0[j],
                        forall|j: int| 0 <= j < ev0.len() - evicted@.len() ==> (#[trigger] self.queue.pending()[q0.len() + j]).event
                            == Event::PodMigrationRequest(PodMigrationRequest { pod: ev0[ev0.len() - 1 - j], source_node_id: node_id }),
                    decreases evicted@.len(),
                {
                    let ghost qb = self.queue.pending();
                    let ghost before = evicted@;
                    let pod = evicted.pop().unwrap();
                    proof {
                        assert(pod == before[before.len() - 1]);
                        assert forall|k: int| 0 <= k < evicted@.len() implies (#[trigger] evicted@[k]).wf() by {
                            assert(evicted@[k] == before[k]);
                        }
                    }
                    proof {
                        assert(pod == ev0[ev0.len() - 1 - (ev0.len() - before.len())]);
                        assert(evicted@ =~= ev0.subrange(0, evicted@.len() as int));
                    }
                    self.queue.emit(
                        Event::PodMigrationRequest(PodMigrationRequest { pod, source_node_id: node_id }),
                        Component::ApiServer,
                        self.config.message_delay,
                    );
                    proof {
                        assert forall|j: int| 0 <= j < ev0.len() - evicted@.len() implies (#[trigger] self.queue.pending()[q0.len() + j]).event
                            == Event::PodMigrationRequest(PodMigrationRequest { pod: ev0[ev0.len() - 1 - j], source_node_id: node_id }) by {
                            if j < ev0.len() - before.len() {
                                assert(self.queue.pending()[q0.len() + j] == qb[q0.len() + j]);
                            }
                        }
                    }
                }
                self.queue.emit(
                    Event::UpdatePodsResources(UpdatePodsResources {  }),
                    Component::Node(node_id),
                    self.config.update_pods_resources_period,
                );
                proof {
                    let q1 = self.queue.pending();
                    let n = ev0.len();
                    assert(self.api_server.working()[i as int] == nn);
                    assert(q1.len() == q0.len() + n + 1);
                    assert(crate::api_server::first_node_with_id(old(self).api_server.working(), node_id, 0) == Some(i));
                    assert(old(self).emits_last(
                        self,
                        Event::UpdatePodsResources(UpdatePodsResources {  }),
                        Component::Node(node_id),
                        old(self).config.update_pods_resources_period,
                    ));
                    assert forall|j: int| q0.len() <= j < q1.len() - 1 implies ((#[trigger] q1[j]).event matches Event::PodMigrationRequest(m)
                        && m.source_node_id == node_id && !crate::node::holds_pod(self.api_server.working()[i as int].resident(), m.pod.id)) by {
                        let jj = j - q0.len();
                        assert(q1[q0.len() + jj].event == Event::PodMigrationRequest(PodMigrationRequest { pod: ev0[n - 1 - jj], source_node_id: node_id }));
                        let _ = ev0[n - 1 - jj].id;
                    }
                    assert forall|k: int| 0 <= k < w[i as int].resident().len() implies crate::node::holds_pod(
                        self.api_server.working()[i as int].resident(),
                        #[trigger] w[i as int].resident()[k].id,
                    ) || exists|j: int| q0.len() <= j < q1.len() - 1 && ((#[trigger] q1[j]).event matches Event::PodMigrationRequest(m)
                        && m.pod.id == w[i as int].resident()[k].id) by {
                        if !crate::node::holds_pod(nn.resident(), w[i as int].resident()[k].id) {
                            let x = choose|x: int| 0 <= x < ev0.len() && ev0[x].id == w[i as int].resident()[k].id;
                            let j = q0.len() + (n - 1 - x);
                            assert(q1[j].event == Event::PodMigrationRequest(PodMigrationRequest { pod: ev0[x], source_node_id: node_id }));
                        }
                    }
                }
            },
            None => {
                if self.api_server.find_failed(node_id).is_some() {
                    self.queue.emit(
                        Event::UpdatePodsResources(UpdatePodsResources {  }),
                        Component::Node(node_id),
                        self.config.update_pods_resources_period,
                    );
                }
            },
        }
    }

    fn on_request_and_limits_change(&mut self, node_id: u64, e: PodRequestAndLimitsChange)
        requires
            old(self).wf(),
            Event::PodRequestAndLimitsChange(e).wf(),
        ensures
            final(self).wf(),
            final(self).queue.now == old(self).queue.now,
    {
        match self.api_server.find_working(node_id) {
            None => {},
            Some(i) => {
                let ghost w = self.api_server.working();
                let mut node = self.api_server.working_nodes.remove(i);
                proof {
                    assert(node == w[i as int]);
                }
                let removed = node.remove_pod(e.pod_id);
                self.api_server.working_nodes.insert(i, node);
                proof {
                    assert forall|k: int| 0 <= k < self.api_server.working().len() implies (#[trigger] self.api_server.working()[k]).wf()
                        && self.api_server.working()[k].state == NodeState::Working by {
                        if k != i {
                            assert(self.api_server.working()[k] == w[k]);
                        }
                    }
                }
                match removed {
                    None => {},
                    Some(pod) => {
                        proof {
                            let j = choose|j: int| 0 <= j < w[i as int].resident().len() && w[i as int].resident()[j].id == e.pod_id
                                && pod == w[i as int].resident()[j].detached();
                            assert(w[i as int].resident()[j].wf());
                        }
                        let mut pod = pod;
                        pod.requested_cpu = e.new_requested_cpu;
                        pod.limit_cpu = e.new_limit_cpu;
                        pod.requested_memory = e.new_requested_memory;
                        pod.limit_memory = e.new_limit_memory;
                        self.queue.emit(
                            Event::PodAssigningRequest(PodAssigningRequest { pod }),
                            Component::ApiServer,
                            self.config.message_delay,
                        );
                    },
                }
            },
        }
    }
}

} // verus!

verus! {

impl K8sSimulation {
    fn on_cluster_autoscaler_scan(&mut self)
        requires
            old(self).wf(),
        ensures
            final(self).wf(),
            final(self).queue.now == old(self).queue.now,
            old(self).post_cluster_autoscaler_scan(final(self)),
    {
        let mut ca_slot: Option<ClusterAutoscaler> = None;
        std::mem::swap(&mut ca_slot, &mut self.cluster_autoscaler);
        proof {
            assert(ca_slot == old(self).cluster_autoscaler);
        }
        match ca_slot {
            None => {},
            Some(mut ca) => {
                proof {
                    assert(forall|k: int| 0 <= k < self.scheduler.unschedulable_queue@.len() ==> (#[trigger] self.scheduler.unschedulable_queue@[k]).wf());
                }
                let cnt = ca.algorithm.try_to_scale_up(
                    &self.scheduler.unschedulable_queue,
                    self.queue.now,
                    &self.config.default_node,
                );
                if cnt > 0 {
                    self.queue.emit(
                        Event::AllocateNewDefaultNodes(AllocateNewDefaultNodes { cnt_nodes: cnt }),
                        Component::ClusterAutoscaler,
                        self.config.default_node_allocation_time,
                    );
                } else {
                    let ids = ca.algorithm.try_to_scale_down(&self.api_server.working_nodes, self.queue.now);
                    let mut k: usize = 0;
                    while k < ids.len()
                        invariant
                            self.queue.wf(),
                            self.queue.now == old(self).queue.now,
                            self.config == old(self).config,
                            self.api_server == old(self).api_server,
                            self.scheduler == old(self).scheduler,
                            self.metrics_server == old(self).metrics_server,
                            self.horizontal_autoscaler == old(self).horizontal_autoscaler,
                            self.cluster_autoscaler.is_none(),
                            k <= ids@.len(),
                            self.queue.pending().len() == old(self).queue.pending().len() + k,
                            forall|j: int| 0 <= j < old(self).queue.pending().len() ==> self.queue.pending()[j] == old(self).queue.pending()[j],
                            forall|j: int| old(self).queue.pending().len() <= j < self.queue.pending().len() ==> (#[trigger] self.queue.pending()[j]).event is RemoveNode,
                        decreases ids@.len() - k,
                    {
                        self.queue.emit(
                            Event::RemoveNode(RemoveNode { node_id: ids[k] }),
                            Component::ApiServer,
                            self.config.node_stop_duration,
                        );
                        k += 1;
                    }
                }
                self.cluster_autoscaler = Some(ca);
                self.queue.emit(
                    Event::ClusterAutoscalerScan(ClusterAutoscalerScan {  }),
                    Component::ClusterAutoscaler,
                    self.config.cluster_autoscaler_scan_interval,
                );
            },
        }
    }

    fn on_allocate_new_default_nodes(&mut self, cnt_nodes: u64)
        requires
            old(self).wf(),
        ensures
            final(self).wf(),
            final(self).queue.now == old(self).queue.now,
            final(self).api_server.working().len() >= old(self).api_server.working().len(),
    {
        let mut ca_slot: Option<ClusterAutoscaler> = None;
        std::mem::swap(&mut ca_slot, &mut self.cluster_autoscaler);
        match ca_slot {
            None => {},
            Some(mut ca) => {
                let mut k: u64 = 0;
                while k < cnt_nodes && ca.cloud_nodes_pool.len() > 0
                    invariant
                        self.api_server.working().len() >= old(self).api_server.working().len(),
                        self.config.wf(),
                        self.queue.wf(),
                        self.queue.now == old(self).queue.now,
                        self.api_server.wf(),
                        self.scheduler.wf(),
                        self.metrics_server.wf(),
                        self.horizontal_autoscaler == old(self).horizontal_autoscaler,
                        old(self).horizontal_autoscaler matches Some(h) ==> h.targets_bounded(),
                        all_in_state(ca.cloud_nodes_pool@, NodeState::Working),
                        k <= cnt_nodes,
                    decreases cnt_nodes - k,
                {
                    let ghost pool = ca.cloud_nodes_pool@;
                    let node = ca.cloud_nodes_pool.pop().unwrap();
                    proof {
                        assert(node == pool[pool.len() - 1]);
                        assert forall|i: int| 0 <= i < ca.cloud_nodes_pool@.len() implies (#[trigger] ca.cloud_nodes_pool@[i]).wf()
                            && ca.cloud_nodes_pool@[i].state == NodeState::Working by {
                            assert(ca.cloud_nodes_pool@[i] == pool[i]);
                        }
                    }
                    let node_id = node.id;
                    self.api_server.add_new_node(node);
                    self.queue.emit(
                        Event::MoveRequest(MoveRequest {  }),
                        Component::Scheduler,
                        self.config.control_plane_message_delay,
                    );
                    self.queue.emit(
                        Event::UpdatePodsResources(UpdatePodsResources {  }),
                        Component::Node(node_id),
                        self.config.update_pods_resources_period,
                    );
                    k += 1;
                }
                self.cluster_autoscaler = Some(ca);
            },
        }
    }

    fn on_metrics_server_snapshot(&mut self)
        requires
            old(self).wf(),
        ensures
            final(self).wf(),
            final(self).queue.now == old(self).queue.now,
            old(self).emits_last(final(self), Event::MetricsServerSnapshot(MetricsServerSnapshot {  }), Component::MetricsServer, old(self).config.metrics_server_interval),
            forall|k: int, j: int|
                0 <= k < old(self).api_server.working().len() && 0 <= j < old(self).api_server.working()[k].resident().len()
                    ==> crate::metrics_server::sampled_at(final(self).metrics_server.stats(), #[trigger] old(self).api_server.working()[k].resident()[j].id, old(self).queue.now),
    {
        self.metrics_server.make_snapshot(&self.api_server.working_nodes, self.queue.now);
        self.queue.emit(
            Event::MetricsServerSnapshot(MetricsServerSnapshot {  }),
            Component::MetricsServer,
            self.config.metrics_server_interval,
        );
    }

    fn on_vertical_autoscaler_cycle(&mut self)
        requires
            old(self).wf(),
        ensures
            final(self).wf(),
            final(self).queue.now == old(self).queue.now,
            final(self).api_server == old(self).api_server,
    {
        let vpa = match &self.vertical_autoscaler {
            None => {
                return ;
            },
            Some(v) => *v,
        };
        let mut m: usize = 0;
        while m < self.api_server.pod_to_node_map.len()
            invariant
                self.api_server == old(self).api_server,
                self.wf(),
                self.queue.now == old(self).queue.now,
                m <= self.api_server.pod_to_node_map@.len(),
            decreases self.api_server.pod_to_node_map@.len() - m,
        {
            let (pod_id, node_id) = self.api_server.pod_to_node_map[m];
            m += 1;
            let rec = match self.metrics_server.get_pod_statistics(pod_id) {
                None => None,
                Some(stat) => match self.api_server.find_working(node_id) {
                    None => None,
                    Some(i) => {
                        let node = &self.api_server.working_nodes[i];
                        assert(node.wf());
                        match node.find_pod(pod_id) {
                            None => None,
                            Some(j) => {
                                let pod = &node.pods[j];
                                assert(pod.wf());
                                match vpa.get_recommendation(pod, stat) {
                                    None => None,
                                    Some(r) => if vpa.try_to_apply_recommendation(pod, &r) {
                                        Some(r)
                                    } else {
                                        None
                                    },
                                }
                            },
                        }
                    },
                },
            };
            match rec {
                None => {},
                Some(r) => {
                    if r.new_requested_cpu <= MAX_RESOURCE && r.new_limit_cpu <= MAX_RESOURCE
                        && r.new_requested_memory <= MAX_RESOURCE && r.new_limit_memory
                        <= MAX_RESOURCE {
                        self.queue.emit(
                            Event::PodRequestAndLimitsChange(
                                PodRequestAndLimitsChange {
                                    pod_id: r.pod_id,
                                    new_requested_cpu: r.new_requested_cpu,
                                    new_limit_cpu: r.new_limit_cpu,
                                    new_requested_memory: r.new_requested_memory,
                                    new_limit_memory: r.new_limit_memory,
                                },
                            ),
                            Component::Node(node_id),
                            self.config.message_delay + self.config.message_delay,
                        );
                    }
                },
            }
        }
        self.queue.emit(
            Event::VerticalAutoscalerCycle(VerticalAutoscalerCycle {  }),
            Component::VerticalAutoscaler,
            self.config.vpa_interval,
        );
    }

    fn on_horizontal_autoscaler_cycle(&mut self)
        requires
            old(self).wf(),
        ensures
            final(self).wf(),
            final(self).queue.now == old(self).queue.now,
            final(self).api_server == old(self).api_server,
    {
        let mut slot: Option<ResourcesHorizontalAutoscalerAlgorithm> = None;
        std::mem::swap(&mut slot, &mut self.horizontal_autoscaler);
        match slot {
            None => {},
            Some(mut hpa) => {
                let mut d: usize = 0;
                while d < self.api_server.deployments.len()
                    invariant
                        self.api_server == old(self).api_server,
                        self.config.wf(),
                        self.queue.wf(),
                        self.queue.now == old(self).queue.now,
                        self.api_server.wf(),
                        self.scheduler.wf(),
                        self.metrics_server.wf(),
                        self.cluster_autoscaler == old(self).cluster_autoscaler,
                        old(self).cluster_autoscaler matches Some(ca) ==> all_in_state(ca.cloud_nodes_pool@, NodeState::Working),
                        hpa.targets_bounded(),
                        self.horizontal_autoscaler.is_none(),
                        d <= self.api_server.deployments@.len(),
                    decreases self.api_server.deployments@.len() - d,
                {
                    match self.replica_loads_of(d) {
                        None => {},
                        Some(loads) => {
                            let dep = &self.api_server.deployments[d];
                            let new_cnt = hpa.get_new_count_replicas(
                                dep.id,
                                dep.cnt_replicas,
                                dep.pod_template.requested_cpu,
                                dep.pod_template.requested_memory,
                                &loads,
                                self.queue.now,
                            );
                            if new_cnt != dep.cnt_replicas {
                                let id = dep.id;
                                self.queue.emit(
                                    Event::DeploymentHorizontalAutoscaling(
                                        DeploymentHorizontalAutoscaling { id, new_cnt_replicas: new_cnt },
                                    ),
                                    Component::ApiServer,
                                    self.config.message_delay,
                                );
                            }
                        },
                    }
                    d += 1;
                }
                self.horizontal_autoscaler = Some(hpa);
                self.queue.emit(
                    Event::HorizontalAutoscalerCycle(HorizontalAutoscalerCycle {  }),
                    Component::HorizontalAutoscaler,
                    self.config.hpa_interval,
                );
            },
        }
    }

    /// What the horizontal autoscaler reads of a deployment's replicas, or `None` when
    /// some replica has no statistic yet.
    fn replica_loads_of(&self, d: usize) -> (r: Option<Vec<ReplicaLoad>>)
        requires
            self.config.wf(),
            self.api_server.wf(),
            self.metrics_server.wf(),
            d < self.api_server.deployments@.len(),
        ensures
            r matches Some(v) ==> v@.len() <= u64::MAX && forall|k: int| 0 <= k < v@.len() ==> (#[trigger] v@[k]).last_snapshot.cpu <= MAX_RESOURCE
                && v@[k].last_snapshot.memory <= MAX_RESOURCE,
    {
        let replicas = &self.api_server.deployment_to_replicas[d];
        let mut loads: Vec<ReplicaLoad> = Vec::new();
        let mut k: usize = 0;
        while k < replicas.len()
            invariant
                self.metrics_server.wf(),
                k <= replicas@.len(),
                loads@.len() == k,
                forall|j: int| 0 <= j < loads@.len() ==> (#[trigger] loads@[j]).last_snapshot.cpu <= MAX_RESOURCE
                    && loads@[j].last_snapshot.memory <= MAX_RESOURCE,
            decreases replicas@.len() - k,
        {
            match self.metrics_server.get_pod_statistics(replicas[k]) {
                None => {
                    return None;
                },
                Some(stat) => {
                    loads.push(
                        ReplicaLoad {
                            history_time: stat.cpu_distribution.history_time(),
                            last_snapshot: stat.last_snapshot,
                        },
                    );
                },
            }
            k += 1;
        }
        Some(loads)
    }
}

} // verus!

verus! {

impl K8sSimulation {
    /// A simulation with the given settings and algorithms; the nodes the settings
    /// list are added at once, and the periodic components get their first events.
    pub fn new(
        config: SimulationConfig,
        scheduler_algorithm: SchedulerAlgorithm,
        cluster_autoscaler_algorithm: Option<SimpleClusterAutoscalerAlgorithm>,
        vertical_autoscaler_algorithm: Option<AutoVerticalAutoscalerAlgorithm>,
        horizontal_autoscaler_algorithm: Option<ResourcesHorizontalAutoscalerAlgorithm>,
    ) -> (r: Self)
        requires
            config.wf(),
            forall|k: int| 0 <= k < config.nodes@.len() ==> (#[trigger] config.nodes@[k]).cpu <= MAX_RESOURCE
                && config.nodes@[k].memory <= MAX_RESOURCE,
            horizontal_autoscaler_algorithm matches Some(h) ==> h.targets_bounded(),
        ensures
            r.wf(),
            r.queue.now == 0,
            r.api_server.working().len() == configured_nodes(config.nodes@, config.nodes@.len() as int),
            r.api_server.failed().len() == 0,
            r.cluster_autoscaler.is_some() == cluster_autoscaler_algorithm.is_some(),
            r.cluster_autoscaler matches Some(ca) ==> ca.cloud_nodes_pool@.len() == config.cloud_nodes_count,
            r.vertical_autoscaler == vertical_autoscaler_algorithm,
            r.horizontal_autoscaler.is_some() == horizontal_autoscaler_algorithm.is_some(),
            r.metrics_period == 0,
    {
        let node_configs = config.nodes.clone();
        let mut sim = K8sSimulation {
            config,
            queue: EventQueue::new(),
            api_server: APIServer::new(),
            scheduler: Scheduler::new(scheduler_algorithm),
            metrics_server: MetricsServer::new(),
            cluster_autoscaler: None,
            vertical_autoscaler: None,
            horizontal_autoscaler: None,
            last_node_id: 0,
            metrics_period: 0,
            metrics_log: Vec::new(),
        };
        let sample_metrics = vertical_autoscaler_algorithm.is_some()
            || horizontal_autoscaler_algorithm.is_some();
        match cluster_autoscaler_algorithm {
            None => {},
            Some(algorithm) => {
                let mut pool: Vec<Node> = Vec::new();
                let mut i: u64 = 0;
                while i < sim.config.cloud_nodes_count
                    invariant
                        sim.wf(),
                        sim.queue.now == 0,
                        all_in_state(pool@, NodeState::Working),
                        i <= sim.config.cloud_nodes_count,
                        pool@.len() == i,
                        sim.config.cloud_nodes_count == config.cloud_nodes_count,
                        sim.config.nodes@ == config.nodes@,
                        sim.api_server.working().len() == 0,
                        sim.api_server.failed().len() == 0,
                        sim.cluster_autoscaler.is_none(),
                        sim.vertical_autoscaler.is_none(),
                        sim.horizontal_autoscaler.is_none(),
                        sim.metrics_period == 0,
                    decreases sim.config.cloud_nodes_count - i,
                {
                    if sim.last_node_id < u64::MAX {
                        sim.last_node_id = sim.last_node_id + 1;
                    }
                    let node = Node::new(
                        sim.last_node_id,
                        sim.config.default_node.cpu,
                        sim.config.default_node.memory,
                        NodeState::Working,
                    );
                    let ghost before = pool@;
                    pool.push(node);
                    proof {
                        assert forall|k: int| 0 <= k < pool@.len() implies (#[trigger] pool@[k]).wf()
                            && pool@[k].state == NodeState::Working by {
                            if k < before.len() {
                                assert(pool@[k] == before[k]);
                            }
                        }
                    }
                    i += 1;
                }
                sim.cluster_autoscaler = Some(ClusterAutoscaler { algorithm, cloud_nodes_pool: pool });
                sim.queue.emit(
                    Event::ClusterAutoscalerScan(ClusterAutoscalerScan {  }),
                    Component::ClusterAutoscaler,
                    0,
                );
            },
        }
        if sample_metrics {
            sim.queue.emit(
                Event::MetricsServerSnapshot(MetricsServerSnapshot {  }),
                Component::MetricsServer,
                0,
            );
        }
        match vertical_autoscaler_algorithm {
            None => {},
            Some(v) => {
                sim.vertical_autoscaler = Some(v);
                sim.queue.emit(
                    Event::VerticalAutoscalerCycle(VerticalAutoscalerCycle {  }),
                    Component::VerticalAutoscaler,
                    0,
                );
            },
        }
        match horizontal_autoscaler_algorithm {
            None => {},
            Some(h) => {
                sim.horizontal_autoscaler = Some(h);
                sim.queue.emit(
                    Event::HorizontalAutoscalerCycle(HorizontalAutoscalerCycle {  }),
                    Component::HorizontalAutoscaler,
                    0,
                );
            },
        }
        sim.queue.emit(
            Event::FlushUnschedulableQueue(FlushUnschedulableQueue {  }),
            Component::Scheduler,
            UNSCHEDULABLE_QUEUE_FLUSH_TIMEOUT,
        );
        let ghost ca_some = sim.cluster_autoscaler.is_some();
        let ghost hpa_some = sim.horizontal_autoscaler.is_some();
        let mut k: usize = 0;
        while k < node_configs.len()
            invariant
                sim.wf(),
                sim.queue.now == 0,
                k <= node_configs@.len(),
                node_configs@ == config.nodes@,
                sim.api_server.working().len() == configured_nodes(node_configs@, k as int),
                sim.api_server.failed().len() == 0,
                sim.cluster_autoscaler.is_some() == ca_some,
                sim.cluster_autoscaler matches Some(ca) ==> ca.cloud_nodes_pool@.len() == config.cloud_nodes_count,
                sim.vertical_autoscaler == vertical_autoscaler_algorithm,
                sim.horizontal_autoscaler.is_some() == hpa_some,
                sim.metrics_period == 0,
                forall|j: int| 0 <= j < node_configs@.len() ==> (#[trigger] node_configs@[j]).cpu <= MAX_RESOURCE
                    && node_configs@[j].memory <= MAX_RESOURCE,
            decreases node_configs@.len() - k,
        {
            let nc = node_configs[k];
            let mut c: u64 = 0;
            while c < nc.count
                invariant
                    sim.wf(),
                    sim.queue.now == 0,
                    nc.cpu <= MAX_RESOURCE,
                    nc.memory <= MAX_RESOURCE,
                    c <= nc.count,
                    sim.api_server.working().len() == configured_nodes(node_configs@, k as int) + c,
                    sim.api_server.failed().len() == 0,
                    sim.cluster_autoscaler.is_some() == ca_some,
                    sim.cluster_autoscaler matches Some(ca) ==> ca.cloud_nodes_pool@.len() == config.cloud_nodes_count,
                    sim.vertical_autoscaler == vertical_autoscaler_algorithm,
                    sim.horizontal_autoscaler.is_some() == hpa_some,
                    sim.metrics_period == 0,
                decreases nc.count - c,
            {
                sim.add_node(nc.cpu, nc.memory);
                c += 1;
            }
            k += 1;
        }
        sim
    }

    /// Registers a new working node at once and returns its id.
    pub fn add_node(&mut self, cpu_total: u64, memory_total: u64) -> (r: u64)
        requires
            old(self).wf(),
            cpu_total <= MAX_RESOURCE,
            memory_total <= MAX_RESOURCE,
        ensures
            final(self).wf(),
            final(self).queue.now == old(self).queue.now,
            final(self).api_server.working().len() == old(self).api_server.working().len() + 1,
            final(self).api_server.failed() == old(self).api_server.failed(),
            final(self).cluster_autoscaler == old(self).cluster_autoscaler,
            final(self).vertical_autoscaler == old(self).vertical_autoscaler,
            final(self).horizontal_autoscaler == old(self).horizontal_autoscaler,
            final(self).metrics_period == old(self).metrics_period,
            final(self).queue.pending().len() == old(self).queue.pending().len() + 2,
            forall|k: int| 0 <= k < old(self).queue.pending().len() ==> final(self).queue.pending()[k] == old(self).queue.pending()[k],
            final(self).queue.pending()[old(self).queue.pending().len() as int].event == Event::MoveRequest(MoveRequest {  }),
            final(self).queue.pending()[old(self).queue.pending().len() as int].dest == Component::Scheduler,
            final(self).queue.pending()[old(self).queue.pending().len() as int].time == sat_add(
                old(self).queue.now,
                old(self).config.control_plane_message_delay,
            ),
            final(self).queue.pending().last().event == Event::UpdatePodsResources(UpdatePodsResources {  }),
            final(self).queue.pending().last().dest == Component::Node(r),
            exists|i: int| 0 <= i < final(self).api_server.working().len() && final(self).api_server.working()[i].id == r
                && final(self).api_server.working()[i].cpu_total == cpu_total
                && final(self).api_server.working()[i].memory_total == memory_total
                && final(self).api_server.working()[i].resident().len() == 0,
    {
        if self.last_node_id < u64::MAX {
            self.last_node_id = self.last_node_id + 1;
        }
        let id = self.last_node_id;
        let node = Node::new(id, cpu_total, memory_total, NodeState::Working);
        self.api_server.add_new_node(node);
        self.queue.emit(
            Event::MoveRequest(MoveRequest {  }),
            Component::Scheduler,
            self.config.control_plane_message_delay,
        );
        self.queue.emit(
            Event::UpdatePodsResources(UpdatePodsResources {  }),
            Component::Node(id),
            self.config.update_pods_resources_period,
        );
        id
    }

    /// Brings the failed node `node_id` back after the control-plane delay plus `delay`.
    pub fn recover_node(&mut self, node_id: u64, delay: u64)
        requires
            old(self).wf(),
        ensures
            final(self).wf(),
            old(self).only_emits(
                final(self),
                Event::NodeStatusChanged(NodeStatusChanged { node_id, new_status: NodeState::Working }),
                Component::ApiServer,
                sat_add(old(self).config.control_plane_message_delay, delay),
            ),
    {
        let d = saturating_sum(self.config.control_plane_message_delay, delay);
        self.queue.emit(
            Event::NodeStatusChanged(NodeStatusChanged { node_id, new_status: NodeState::Working }),
            Component::ApiServer,
            d,
        );
    }

    /// Crashes the working node `node_id` after the control-plane delay plus `delay`.
    pub fn crash_node(&mut self, node_id: u64, delay: u64)
        requires
            old(self).wf(),
        ensures
            final(self).wf(),
            old(self).only_emits(
                final(self),
                Event::NodeStatusChanged(NodeStatusChanged { node_id, new_status: NodeState::Failed }),
                Component::ApiServer,
                sat_add(old(self).config.control_plane_message_delay, delay),
            ),
    {
        let d = saturating_sum(self.config.control_plane_message_delay, delay);
        self.queue.emit(
            Event::NodeStatusChanged(NodeStatusChanged { node_id, new_status: NodeState::Failed }),
            Component::ApiServer,
            d,
        );
    }

    /// Submits a pod after `delay` and returns its id.
    pub fn submit_pod(
        &mut self,
        requested_cpu: u64,
        requested_memory: u64,
        limit_cpu: u64,
        limit_memory: u64,
        priority_weight: u64,
        cpu_load_model: LoadModel,
        memory_load_model: LoadModel,
        delay: u64,
    ) -> (r: u64)
        requires
            old(self).wf(),
            requested_cpu <= MAX_RESOURCE,
            requested_memory <= MAX_RESOURCE,
            limit_cpu <= MAX_RESOURCE,
            limit_memory <= MAX_RESOURCE,
            cpu_load_model.wf(),
            memory_load_model.wf(),
        ensures
            final(self).wf(),
            final(self).queue.now == old(self).queue.now,
            old(self).api_server.pod_counter < u64::MAX ==> r == old(self).api_server.pod_counter + 1,
            final(self).api_server.pod_counter == r,
            final(self).queue.pending() == old(self).queue.queued(
                Event::PodAssigningRequest(
                    PodAssigningRequest {
                        pod: Pod {
                            id: r,
                            cpu: 0,
                            memory: 0,
                            cpu_load_model,
                            memory_load_model,
                            requested_cpu,
                            requested_memory,
                            limit_cpu,
                            limit_memory,
                            priority_weight,
                            scheduling_attempts: None,
                            scheduling_timestamp: None,
                            start_time: sat_add(old(self).queue.now, delay),
                            status: PodStatus::Pending,
                            deployment_id: None,
                        },
                    },
                ),
                Component::ApiServer,
                delay,
            ),
            final(self).scheduler == old(self).scheduler,
            final(self).api_server.working() == old(self).api_server.working(),
    {
        let id = self.api_server.generate_pod_id();
        let mut pod = Pod::new(
            id,
            cpu_load_model,
            memory_load_model,
            requested_cpu,
            requested_memory,
            limit_cpu,
            limit_memory,
            priority_weight,
            PodStatus::Pending,
            None,
        );
        pod.start_time = saturating_sum(self.queue.now, delay);
        self.queue.emit(
            Event::PodAssigningRequest(PodAssigningRequest { pod }),
            Component::ApiServer,
            delay,
        );
        id
    }

    /// Submits a deployment of `cnt_replicas` replicas after `delay` and returns its id.
    pub fn submit_deployment(
        &mut self,
        requested_cpu: u64,
        requested_memory: u64,
        limit_cpu: u64,
        limit_memory: u64,
        priority_weight: u64,
        cpu_load_model: LoadModel,
        memory_load_model: LoadModel,
        cnt_replicas: u64,
        delay: u64,
    ) -> (r: u64)
        requires
            old(self).wf(),
            requested_cpu <= MAX_RESOURCE,
            requested_memory <= MAX_RESOURCE,
            limit_cpu <= MAX_RESOURCE,
            limit_memory <= MAX_RESOURCE,
            cpu_load_model.wf(),
            memory_load_model.wf(),
        ensures
            final(self).wf(),
            final(self).queue.now == old(self).queue.now,
            old(self).api_server.deployment_counter < u64::MAX ==> r == old(self).api_server.deployment_counter + 1,
            final(self).queue.pending() == old(self).queue.queued(
                Event::DeploymentCreateRequest(
                    DeploymentCreateRequest {
                        deployment: Deployment {
                            id: r,
                            pod_template: PodTemplate {
                                cpu_load_model,
                                memory_load_model,
                                requested_cpu,
                                requested_memory,
                                limit_cpu,
                                limit_memory,
                                priority_weight,
                            },
                            cnt_replicas,
                        },
                    },
                ),
                Component::ApiServer,
                delay,
            ),
            final(self).scheduler == old(self).scheduler,
            final(self).api_server.working() == old(self).api_server.working(),
    {
        let id = self.api_server.generate_deployment_id();
        let pod_template = PodTemplate {
            cpu_load_model,
            memory_load_model,
            requested_cpu,
            requested_memory,
            limit_cpu,
            limit_memory,
            priority_weight,
        };
        let deployment = Deployment::new(id, pod_template, cnt_replicas);
        self.queue.emit(
            Event::DeploymentCreateRequest(DeploymentCreateRequest { deployment }),
            Component::ApiServer,
            delay,
        );
        id
    }

    /// Removes pod `pod_id` after the message delay.
    pub fn remove_pod(&mut self, pod_id: u64)
        requires
            old(self).wf(),
        ensures
            final(self).wf(),
            old(self).only_emits(
                final(self),
                Event::PodRemoveRequest(PodRemoveRequest { pod_id }),
                Component::ApiServer,
                old(self).config.message_delay,
            ),
    {
        self.queue.emit(
            Event::PodRemoveRequest(PodRemoveRequest { pod_id }),
            Component::ApiServer,
            self.config.message_delay,
        );
    }

    /// Delivers the next event; tells whether there was one. Time never goes back.
    pub fn step(&mut self) -> (r: bool)
        requires
            old(self).wf(),
        ensures
            final(self).wf(),
            final(self).queue.now >= old(self).queue.now,
            r == (old(self).queue.pending().len() > 0),
            r ==> exists|i: int|
                0 <= i < old(self).queue.pending().len() && old(self).queue.pending()[i].time == final(self).queue.now
                    && forall|k: int| 0 <= k < old(self).queue.pending().len() ==> final(self).queue.now
                        <= #[trigger] old(self).queue.pending()[k].time,
            !r ==> final(self).queue.now == old(self).queue.now,
            r ==> exists|mid: K8sSimulation, e: QueuedEvent| old(self).popped(&mid, e) && mid.handled(e.dest, e.event, final(self)),
    {
        let e = match self.queue.pop_next() {
            None => {
                return false;
            },
            Some(e) => e,
        };
        let ghost mid = *self;
        let ghost ge = e;
        proof {
            assert(old(self).popped(&mid, ge));
        }
        let dest = e.dest;
        match e.event {
            Event::PodAssigningRequest(ev) => self.enqueue_pod(ev.pod),
            Event::PodAssigningSucceeded(ev) => self.on_pod_assigning_succeeded(ev),
            Event::PodAssigningFailed(ev) => self.on_pod_assigning_failed(ev),
            Event::PodPlacementRequest(ev) => self.on_pod_placement_request(ev),
            Event::PodPlacementSucceeded(ev) => self.on_pod_placement_succeeded(ev),
            Event::PodPlacementFailed(ev) => self.enqueue_pod(ev.pod),
            Event::PodMigrationRequest(ev) => self.on_pod_migration_request(ev),
            Event::PodRequestAndLimitsChange(ev) => match dest {
                Component::Node(node_id) => self.on_request_and_limits_change(node_id, ev),
                _ => {},
            },
            Event::AllocateNewDefaultNodes(ev) => self.on_allocate_new_default_nodes(ev.cnt_nodes),
            Event::RemoveNode(ev) => self.on_remove_node(ev.node_id),
            Event::NodeStatusChanged(ev) => self.on_node_status_changed(ev),
            Event::UpdatePodsResources(_) => match dest {
                Component::Node(node_id) => self.on_update_pods_resources(node_id),
                _ => {},
            },
            Event::SchedulingCycle(_) => self.on_scheduling_cycle(),
            Event::PodBackoffRetry(ev) => self.enqueue_pod(ev.pod),
            Event::FlushUnschedulableQueue(_) => self.on_flush_unschedulable_queue(),
            Event::MoveRequest(_) => self.on_move_request(),
            Event::PodRemoveRequest(ev) => self.on_pod_remove_request(ev.pod_id),
            Event::ClusterAutoscalerScan(_) => self.on_cluster_autoscaler_scan(),
            Event::MetricsServerSnapshot(_) => self.on_metrics_server_snapshot(),
            Event::VerticalAutoscalerCycle(_) => self.on_vertical_autoscaler_cycle(),
            Event::HorizontalAutoscalerCycle(_) => self.on_horizontal_autoscaler_cycle(),
            Event::MetricsSnapshot(_) => self.on_metrics_snapshot(),
            Event::DeploymentCreateRequest(ev) => self.on_deployment_create(ev.deployment),
            Event::DeploymentHorizontalAutoscaling(ev) => self.on_deployment_horizontal_autoscaling(ev),
        }
        proof {
            assert(mid.handled(ge.dest, ge.event, self));
        }
        true
    }

    /// Delivers up to `step_count` events; tells whether events remain.
    pub fn steps(&mut self, step_count: u64) -> (r: bool)
        requires
            old(self).wf(),
        ensures
            final(self).wf(),
            final(self).queue.now >= old(self).queue.now,
            r == (final(self).queue.pending().len() > 0),
    {
        let mut i: u64 = 0;
        while i < step_count
            invariant
                self.wf(),
                self.queue.now >= old(self).queue.now,
            decreases step_count - i,
        {
            if !self.step() {
                break ;
            }
            i += 1;
        }
        self.queue.events.len() > 0
    }

    /// Delivers events until none is left (or the step counter runs out).
    pub fn step_until_no_events(&mut self)
        requires
            old(self).wf(),
        ensures
            final(self).wf(),
            final(self).queue.now >= old(self).queue.now,
    {
        let _ = self.steps(u64::MAX);
    }

    /// Delivers every event due at or before `time`, then sets the clock to `time`
    /// (unless it is already later). Tells whether it got there: it gives up only after
    /// 2^64 − 1 deliveries, which no finite workload reaches.
    pub fn step_until_time(&mut self, time: u64) -> (finished: bool)
        requires
            old(self).wf(),
        ensures
            final(self).wf(),
            final(self).queue.now >= old(self).queue.now,
            finished ==> final(self).queue.now == (if old(self).queue.now >= time {
                old(self).queue.now
            } else {
                time
            }),
            finished ==> forall|k: int|
                0 <= k < final(self).queue.pending().len() ==> (#[trigger] final(self).queue.pending()[k]).time > time,
    {
        let ghost limit: int = if old(self).queue.now >= time { old(self).queue.now as int } else { time as int };
        let mut fuel: u64 = u64::MAX;
        let mut done = false;
        while !done
            invariant
                self.wf(),
                self.queue.now >= old(self).queue.now,
                self.queue.now <= limit,
                limit == (if old(self).queue.now >= time { old(self).queue.now as int } else { time as int }),
                done ==> forall|k: int|
                    0 <= k < self.queue.pending().len() ==> (#[trigger] self.queue.pending()[k]).time > time,
            decreases fuel, (if done { 0int } else { 1int }),
        {
            let next = self.queue.peek_time();
            match next {
                None => {
                    done = true;
                },
                Some(t) => {
                    if t > time {
                        proof {
                            assert forall|k: int| 0 <= k < self.queue.pending().len() implies (#[trigger] self.queue.pending()[k]).time > time by {
                                assert(t <= self.queue.pending()[k].time);
                            }
                        }
                        done = true;
                    } else {
                        if fuel == 0 {
                            return false;
                        }
                        let ghost q = self.queue.pending();
                        let ghost j = choose|j: int| 0 <= j < q.len() && q[j].time == t;
                        self.step();
                        proof {
                            assert(q[j].time == t);
                            assert(self.queue.now <= q[j].time);
                        }
                        fuel = fuel - 1;
                    }
                },
            }
        }
        if self.queue.now < time {
            self.queue.now = time;
        }
        true
    }

    /// Delivers the events of the next `duration` of simulated time (the clock then
    /// stands `duration` later, saturating); tells whether it got there.
    pub fn step_for_duration(&mut self, duration: u64) -> (finished: bool)
        requires
            old(self).wf(),
        ensures
            final(self).wf(),
            final(self).queue.now >= old(self).queue.now,
            finished ==> final(self).queue.now == sat_add(old(self).queue.now, duration),
            finished ==> forall|k: int|
                0 <= k < final(self).queue.pending().len() ==> (#[trigger] final(self).queue.pending()[k]).time > sat_add(
                    old(self).queue.now,
                    duration,
                ),
    {
        let until = saturating_sum(self.queue.now, duration);
        self.step_until_time(until)
    }

    /// Number of events emitted so far.
    pub fn event_count(&self) -> (r: u64)
        ensures
            r == self.queue.event_count,
    {
        self.queue.event_count
    }

    /// The current simulated time (ms).
    pub fn current_time(&self) -> (r: u64)
        ensures
            r == self.queue.now,
    {
        self.queue.now
    }

    pub fn working_nodes(&self) -> (r: &Vec<Node>)
        ensures
            r@ == self.api_server.working(),
    {
        &self.api_server.working_nodes
    }

    pub fn failed_nodes(&self) -> (r: &Vec<Node>)
        ensures
            r@ == self.api_server.failed(),
    {
        &self.api_server.failed_nodes
    }

    /// The node `node_id`, working or failed.
    pub fn node(&self, node_id: u64) -> (r: Option<&Node>)
        ensures
            r matches Some(n) ==> n.id == node_id,
            r.is_none() ==> (forall|k: int| 0 <= k < self.api_server.working().len() ==> (#[trigger] self.api_server.working()[k]).id != node_id)
                && (forall|k: int| 0 <= k < self.api_server.failed().len() ==> (#[trigger] self.api_server.failed()[k]).id != node_id),
    {
        match self.api_server.find_working(node_id) {
            Some(i) => Some(&self.api_server.working_nodes[i]),
            None => match self.api_server.find_failed(node_id) {
                Some(i) => Some(&self.api_server.failed_nodes[i]),
                None => None,
            },
        }
    }

    /// Average allocated CPU per working node.
    pub fn average_cpu_allocated(&self) -> (r: u64)
        requires
            self.wf(),
        ensures
            r == average_reading(self.api_server.working(), Reading::CpuAllocated),
    {
        self.api_server.average_working(Reading::CpuAllocated)
    }

    /// Average allocated memory per working node.
    pub fn average_memory_allocated(&self) -> (r: u64)
        requires
            self.wf(),
        ensures
            r == average_reading(self.api_server.working(), Reading::MemoryAllocated),
    {
        self.api_server.average_working(Reading::MemoryAllocated)
    }

    /// Average used CPU per working node.
    pub fn average_cpu_used(&self) -> (r: u64)
        requires
            self.wf(),
        ensures
            r == average_reading(self.api_server.working(), Reading::CpuUsed),
    {
        self.api_server.average_working(Reading::CpuUsed)
    }

    /// Average used memory per working node.
    pub fn average_memory_used(&self) -> (r: u64)
        requires
            self.wf(),
        ensures
            r == average_reading(self.api_server.working(), Reading::MemoryUsed),
    {
        self.api_server.average_working(Reading::MemoryUsed)
    }

    /// Allocated CPU over total CPU of the working nodes, in millionths.
    pub fn cpu_allocated_load_rate(&self) -> (r: u128)
        requires
            self.wf(),
        ensures
            r == per_million(sum_reading(self.api_server.working(), Reading::CpuAllocated), sum_reading(self.api_server.working(), Reading::CpuTotal)),
    {
        self.api_server.rate_working(Reading::CpuAllocated, Reading::CpuTotal)
    }

    /// Allocated memory over total memory of the working nodes, in millionths.
    pub fn memory_allocated_load_rate(&self) -> (r: u128)
        requires
            self.wf(),
        ensures
            r == per_million(sum_reading(self.api_server.working(), Reading::MemoryAllocated), sum_reading(self.api_server.working(), Reading::MemoryTotal)),
    {
        self.api_server.rate_working(Reading::MemoryAllocated, Reading::MemoryTotal)
    }

    /// Used CPU over total CPU of the working nodes, in millionths.
    pub fn cpu_used_load_rate(&self) -> (r: u128)
        requires
            self.wf(),
        ensures
            r == per_million(sum_reading(self.api_server.working(), Reading::CpuUsed), sum_reading(self.api_server.working(), Reading::CpuTotal)),
    {
        self.api_server.rate_working(Reading::CpuUsed, Reading::CpuTotal)
    }

    /// Used memory over total memory of the working nodes, in millionths.
    pub fn memory_used_load_rate(&self) -> (r: u128)
        requires
            self.wf(),
        ensures
            r == per_million(sum_reading(self.api_server.working(), Reading::MemoryUsed), sum_reading(self.api_server.working(), Reading::MemoryTotal)),
    {
        self.api_server.rate_working(Reading::MemoryUsed, Reading::MemoryTotal)
    }
}

/// At every moment between events, each deployment's replica list holds exactly its
/// declared number of replicas; horizontal resizes keep it so.
pub proof fn lemma_replicas_match_declared(sim: K8sSimulation)
    requires
        sim.wf(),
    ensures
        sim.api_server.deployment_to_replicas@.len() == sim.api_server.deployments@.len(),
        forall|i: int|
            0 <= i < sim.api_server.deployments@.len() ==> (#[trigger] sim.api_server.deployment_to_replicas@[i])@.len()
                == sim.api_server.deployments@[i].cnt_replicas,
{
}

/// Between events, no working node holds two pods with the same id.
pub proof fn lemma_pod_resident_once_per_node(sim: K8sSimulation)
    requires
        sim.wf(),
    ensures
        forall|k: int|
            0 <= k < sim.api_server.working().len() ==> crate::node::unique_ids(
                #[trigger] sim.api_server.working()[k].resident(),
            ),
{
    assert forall|k: int| 0 <= k < sim.api_server.working().len() implies crate::node::unique_ids(
        #[trigger] sim.api_server.working()[k].resident(),
    ) by {
        assert(sim.api_server.working()[k].wf());
    }
}

/// Between events, no failed node holds a pod or a load.
pub proof fn lemma_failed_nodes_hold_nothing(sim: K8sSimulation)
    requires
        sim.wf(),
    ensures
        forall|k: int|
            0 <= k < sim.api_server.failed().len() ==> (#[trigger] sim.api_server.failed()[k]).resident().len() == 0
                && sim.api_server.failed()[k].loads() == (0int, 0int, 0int, 0int),
{
    assert forall|k: int| 0 <= k < sim.api_server.failed().len() implies (#[trigger] sim.api_server.failed()[k]).resident().len()
        == 0 && sim.api_server.failed()[k].loads() == (0int, 0int, 0int, 0int) by {
        crate::node::lemma_failed_node_is_empty(sim.api_server.failed()[k]);
    }
}

impl K8sSimulation {
    /// Takes a metrics snapshot every `period` ms from now on (none when zero).
    pub fn enable_metrics_log(&mut self, period: u64)
        requires
            old(self).wf(),
        ensures
            final(self).wf(),
            final(self).metrics_period == period,
            final(self).queue.now == old(self).queue.now,
    {
        self.metrics_period = period;
        if period > 0 {
            self.queue.emit(Event::MetricsSnapshot(MetricsSnapshot {  }), Component::ApiServer, period);
        }
    }

    fn on_metrics_snapshot(&mut self)
        requires
            old(self).wf(),
        ensures
            final(self).wf(),
            final(self).queue.now == old(self).queue.now,
            final(self).metrics_log@.len() == old(self).metrics_log@.len() + 1,
    {
        let m = self.log_metrics();
        self.metrics_log.push(m);
        if self.metrics_period > 0 {
            self.queue.emit(
                Event::MetricsSnapshot(MetricsSnapshot {  }),
                Component::ApiServer,
                self.metrics_period,
            );
        }
    }

    /// The average use of a deployment's replicas over its template request, in
    /// millionths (zero without replicas or request).
    pub fn deployment_utilization(&self, d: usize, cpu: bool) -> (r: u128)
        requires
            self.wf(),
            d < self.api_server.deployments@.len(),
        ensures
            r == self.api_server.deployment_utilization(d as int, cpu),
            r <= MAX_RESOURCE * 1_000_000,
    {
        let dep = &self.api_server.deployments[d];
        let replicas = &self.api_server.deployment_to_replicas[d];
        let ghost ids = replicas@;
        let ghost w = self.api_server.working();
        let ghost m = self.api_server.pod_to_node_map@;
        let mut sum: u128 = 0;
        let mut k: usize = 0;
        while k < replicas.len()
            invariant
                self.wf(),
                ids == replicas@,
                w == self.api_server.working(),
                m == self.api_server.pod_to_node_map@,
                k <= ids.len(),
                sum == replicas_use(w, m, ids.subrange(0, k as int), cpu),
                sum <= k * MAX_RESOURCE,
            decreases ids.len() - k,
        {
            let pod_id = replicas[k];
            let mut v: u64 = 0;
            match self.api_server.get_pod_node(pod_id) {
                None => {},
                Some(node_id) => match self.api_server.find_working(node_id) {
                    None => {},
                    Some(i) => {
                        let node = &self.api_server.working_nodes[i];
                        assert(node.wf());
                        match node.find_pod(pod_id) {
                            None => {},
                            Some(j) => {
                                let p = &node.pods[j];
                                assert(p.wf());
                                v = if cpu {
                                    p.cpu
                                } else {
                                    p.memory
                                };
                            },
                        }
                    },
                },
            }
            proof {
                assert(v == replica_use(w, m, pod_id, cpu));
                assert(v <= MAX_RESOURCE);
                let t = ids.subrange(0, k as int + 1);
                assert(t.drop_last() =~= ids.subrange(0, k as int));
                assert(k * MAX_RESOURCE <= u64::MAX * MAX_RESOURCE) by (nonlinear_arith)
                    requires
                        k <= u64::MAX,
                ;
            }
            sum = sum + v as u128;
            k += 1;
        }
        proof {
            assert(ids.subrange(0, k as int) =~= ids);
        }
        let requested: u64 = if cpu {
            dep.pod_template.requested_cpu
        } else {
            dep.pod_template.requested_memory
        };
        let n = replicas.len();
        if n == 0 || requested == 0 {
            return 0;
        }
        proof {
            assert(n * MAX_RESOURCE <= u64::MAX * MAX_RESOURCE) by (nonlinear_arith)
                requires
                    n <= u64::MAX,
            ;
            assert((n as int) * (requested as int) <= u64::MAX * u64::MAX) by (nonlinear_arith)
                requires
                    n <= u64::MAX,
                    requested <= u64::MAX,
            ;
        }
        let denom: u128 = (n as u128) * (requested as u128);
        assert(denom >= n) by (nonlinear_arith)
            requires
                denom == (n as int) * (requested as int),
                n > 0,
                requested > 0,
        ;
        let r = sum * 1_000_000 / denom;
        assert(r <= MAX_RESOURCE * 1_000_000) by (nonlinear_arith)
            requires
                r == (sum as int) * 1_000_000 / (denom as int),
                sum <= n * MAX_RESOURCE,
                denom >= n,
                n > 0,
        ;
        r
    }

    /// The deployments' utilization of a resource, averaged over the deployments.
    pub fn deployments_utilization(&self, cpu: bool) -> (r: u128)
        requires
            self.wf(),
        ensures
            self.api_server.deployments@.len() == 0 ==> r == 0,
            self.api_server.deployments@.len() > 0 ==> r == self.api_server.utilization_sum(
                self.api_server.deployments@.len() as int,
                cpu,
            ) / (self.api_server.deployments@.len() as int),
    {
        let n = self.api_server.deployments.len();
        if n == 0 {
            return 0;
        }
        let mut total: u128 = 0;
        let mut d: usize = 0;
        while d < n
            invariant
                self.wf(),
                n == self.api_server.deployments@.len(),
                d <= n,
                total == self.api_server.utilization_sum(d as int, cpu),
                total <= d * (MAX_RESOURCE * 1_000_000),
            decreases n - d,
        {
            let u = self.deployment_utilization(d, cpu);
            proof {
                assert(d * (MAX_RESOURCE * 1_000_000) <= u64::MAX * (MAX_RESOURCE * 1_000_000)) by (nonlinear_arith)
                    requires
                        d <= u64::MAX,
                ;
            }
            total = total + u;
            proof {
                assert(total <= (d + 1) * (MAX_RESOURCE * 1_000_000)) by (nonlinear_arith)
                    requires
                        total <= d * (MAX_RESOURCE * 1_000_000) + MAX_RESOURCE * 1_000_000,
                ;
            }
            d += 1;
        }
        total / (n as u128)
    }

    /// The cluster's aggregates now.
    pub fn log_metrics(&self) -> (r: Metrics)
        requires
            self.wf(),
        ensures
            r.timestamp == self.queue.now,
            r.nodes_count == self.api_server.working().len(),
            r.pod_migration_count == self.api_server.pod_migration_count,
            r.cpu_allocated_load_rate == per_million(
                sum_reading(self.api_server.working(), Reading::CpuAllocated),
                sum_reading(self.api_server.working(), Reading::CpuTotal),
            ),
            r.memory_allocated_load_rate == per_million(
                sum_reading(self.api_server.working(), Reading::MemoryAllocated),
                sum_reading(self.api_server.working(), Reading::MemoryTotal),
            ),
            r.cpu_used_load_rate == per_million(
                sum_reading(self.api_server.working(), Reading::CpuUsed),
                sum_reading(self.api_server.working(), Reading::CpuTotal),
            ),
            r.memory_used_load_rate == per_million(
                sum_reading(self.api_server.working(), Reading::MemoryUsed),
                sum_reading(self.api_server.working(), Reading::MemoryTotal),
            ),
            r.average_cpu_allocated == average_reading(self.api_server.working(), Reading::CpuAllocated),
            r.average_memory_allocated == average_reading(self.api_server.working(), Reading::MemoryAllocated),
            r.average_cpu_used == average_reading(self.api_server.working(), Reading::CpuUsed),
            r.average_memory_used == average_reading(self.api_server.working(), Reading::MemoryUsed),
            r.memory_overuse_count == overuse_sum(self.api_server.working()),
            r.summary_pods_count == self.api_server.pod_to_node_map@.len(),
            self.api_server.deployments@.len() == 0 ==> r.deployments_cpu_utilization == 0
                && r.deployments_memory_utilization == 0,
            self.api_server.deployments@.len() > 0 ==> r.deployments_cpu_utilization
                == self.api_server.utilization_sum(self.api_server.deployments@.len() as int, true)
                / (self.api_server.deployments@.len() as int)
                && r.deployments_memory_utilization == self.api_server.utilization_sum(
                self.api_server.deployments@.len() as int,
                false,
            ) / (self.api_server.deployments@.len() as int),
    {
        Metrics {
            timestamp: self.queue.now,
            average_cpu_allocated: self.average_cpu_allocated(),
            average_memory_allocated: self.average_memory_allocated(),
            cpu_allocated_load_rate: self.cpu_allocated_load_rate(),
            memory_allocated_load_rate: self.memory_allocated_load_rate(),
            average_cpu_used: self.average_cpu_used(),
            average_memory_used: self.average_memory_used(),
            cpu_used_load_rate: self.cpu_used_load_rate(),
            memory_used_load_rate: self.memory_used_load_rate(),
            pod_migration_count: self.api_server.pod_migration_count,
            memory_overuse_count: self.api_server.memory_overuse_count(),
            nodes_count: self.api_server.working_nodes.len() as u64,
            deployments_cpu_utilization: self.deployments_utilization(true),
            deployments_memory_utilization: self.deployments_utilization(false),
            summary_pods_count: self.api_server.pod_to_node_map.len() as u64,
        }
    }
}

} // verus!

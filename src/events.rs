//! The messages components send each other through the event queue.
use vstd::prelude::*;
use crate::deployment::Deployment;
use crate::node::NodeState;
use crate::pod::Pod;

verus! {

pub struct PodAssigningRequest {
    pub pod: Pod,
}

pub struct PodAssigningSucceeded {
    pub pod: Pod,
    pub node_id: u64,
}

pub struct PodAssigningFailed {
    pub pod: Pod,
    pub scheduling_cycle: u64,
}

pub struct PodPlacementRequest {
    pub pod: Pod,
    pub node_id: u64,
}

#[derive(Clone, Copy)]
pub struct PodPlacementSucceeded {
    pub pod_id: u64,
    pub node_id: u64,
}

pub struct PodPlacementFailed {
    pub pod: Pod,
    pub node_id: u64,
}

pub struct PodMigrationRequest {
    pub pod: Pod,
    pub source_node_id: u64,
}

#[derive(Clone, Copy)]
pub struct PodMigrationSucceeded {
    pub pod_id: u64,
    pub source_node_id: u64,
    pub distance_node_id: u64,
}

#[derive(Clone, Copy)]
pub struct PodMigrationFailed {
    pub pod_id: u64,
    pub source_node_id: u64,
}

#[derive(Clone, Copy)]
pub struct PodRequestAndLimitsChange {
    pub pod_id: u64,
    pub new_requested_cpu: u64,
    pub new_limit_cpu: u64,
    pub new_requested_memory: u64,
    pub new_limit_memory: u64,
}

#[derive(Clone, Copy)]
pub struct AllocateNewDefaultNodes {
    pub cnt_nodes: u64,
}

#[derive(Clone, Copy)]
pub struct RemoveNode {
    pub node_id: u64,
}

#[derive(Clone, Copy)]
pub struct NodeStatusChanged {
    pub node_id: u64,
    pub new_status: NodeState,
}

#[derive(Clone, Copy)]
pub struct UpdatePodsResources {}

#[derive(Clone, Copy)]
pub struct SchedulingCycle {}

pub struct PodBackoffRetry {
    pub pod: Pod,
}

#[derive(Clone, Copy)]
pub struct FlushUnschedulableQueue {}

#[derive(Clone, Copy)]
pub struct MoveRequest {}

#[derive(Clone, Copy)]
pub struct PodRemoveRequest {
    pub pod_id: u64,
}

#[derive(Clone, Copy)]
pub struct ClusterAutoscalerScan {}

#[derive(Clone, Copy)]
pub struct MetricsServerSnapshot {}

#[derive(Clone, Copy)]
pub struct VerticalAutoscalerCycle {}

#[derive(Clone, Copy)]
pub struct HorizontalAutoscalerCycle {}

#[derive(Clone, Copy)]
pub struct MetricsSnapshot {}

pub struct DeploymentCreateRequest {
    pub deployment: Deployment,
}

#[derive(Clone, Copy)]
pub struct DeploymentHorizontalAutoscaling {
    pub id: u64,
    pub new_cnt_replicas: u64,
}

/// Any message, as it waits in the queue.
pub enum Event {
    PodAssigningRequest(PodAssigningRequest),
    PodAssigningSucceeded(PodAssigningSucceeded),
    PodAssigningFailed(PodAssigningFailed),
    PodPlacementRequest(PodPlacementRequest),
    PodPlacementSucceeded(PodPlacementSucceeded),
    PodPlacementFailed(PodPlacementFailed),
    PodMigrationRequest(PodMigrationRequest),
    PodRequestAndLimitsChange(PodRequestAndLimitsChange),
    AllocateNewDefaultNodes(AllocateNewDefaultNodes),
    RemoveNode(RemoveNode),
    NodeStatusChanged(NodeStatusChanged),
    UpdatePodsResources(UpdatePodsResources),
    SchedulingCycle(SchedulingCycle),
    PodBackoffRetry(PodBackoffRetry),
    FlushUnschedulableQueue(FlushUnschedulableQueue),
    MoveRequest(MoveRequest),
    PodRemoveRequest(PodRemoveRequest),
    ClusterAutoscalerScan(ClusterAutoscalerScan),
    MetricsServerSnapshot(MetricsServerSnapshot),
    VerticalAutoscalerCycle(VerticalAutoscalerCycle),
    HorizontalAutoscalerCycle(HorizontalAutoscalerCycle),
    MetricsSnapshot(MetricsSnapshot),
    DeploymentCreateRequest(DeploymentCreateRequest),
    DeploymentHorizontalAutoscaling(DeploymentHorizontalAutoscaling),
}

impl Event {
    /// Every pod and deployment an event carries is well formed.
    pub open spec fn wf(&self) -> bool {
        match self {
            Event::PodAssigningRequest(e) => e.pod.wf(),
            Event::PodAssigningSucceeded(e) => e.pod.wf(),
            Event::PodAssigningFailed(e) => e.pod.wf(),
            Event::PodPlacementRequest(e) => e.pod.wf(),
            Event::PodPlacementFailed(e) => e.pod.wf(),
            Event::PodMigrationRequest(e) => e.pod.wf(),
            Event::PodBackoffRetry(e) => e.pod.wf(),
            Event::DeploymentCreateRequest(e) => e.deployment.wf(),
            Event::PodRequestAndLimitsChange(e) => e.new_requested_cpu <= crate::load_model::MAX_RESOURCE
                && e.new_limit_cpu <= crate::load_model::MAX_RESOURCE
                && e.new_requested_memory <= crate::load_model::MAX_RESOURCE
                && e.new_limit_memory <= crate::load_model::MAX_RESOURCE,
            _ => true,
        }
    }
}

} // verus!

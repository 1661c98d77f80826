//! Simulation settings. Times are in milliseconds, amounts in milli-units, and the
//! memory pressure threshold in per mille of a node's memory.
use vstd::prelude::*;
use crate::load_model::MAX_RESOURCE;

verus! {

/// Upper bound on every time and delay handled by the library (in milliseconds).
pub const MAX_TIME: u64 = 1_152_921_504_606_846_976;

/// A kind of node and how many of them there are.
#[derive(Clone, Copy)]
pub struct NodeConfig {
    pub cpu: u64,
    pub memory: u64,
    pub count: u64,
}

impl NodeConfig {
    pub fn new(cpu: u64, memory: u64, count: u64) -> (r: Self)
        ensures
            r.cpu == cpu && r.memory == memory && r.count == count,
    {
        Self { cpu, memory, count }
    }
}

/// A kind of pod to submit, and how many of them.
#[derive(Clone, Copy)]
pub struct PodConfig {
    pub requested_cpu: u64,
    pub requested_memory: u64,
    pub limit_cpu: u64,
    pub limit_memory: u64,
    pub priority_weight: u64,
    pub submit_time: u64,
    pub count: u64,
}

impl PodConfig {
    pub fn new(
        requested_cpu: u64,
        requested_memory: u64,
        limit_cpu: u64,
        limit_memory: u64,
        priority_weight: u64,
        submit_time: u64,
        count: u64,
    ) -> (r: Self)
        ensures
            r.requested_cpu == requested_cpu && r.requested_memory == requested_memory,
            r.limit_cpu == limit_cpu && r.limit_memory == limit_memory,
            r.priority_weight == priority_weight && r.submit_time == submit_time && r.count == count,
    {
        Self { requested_cpu, requested_memory, limit_cpu, limit_memory, priority_weight, submit_time, count }
    }
}

/// A recorded workload to replay: where it is stored.
pub struct DatasetConfig {
    pub path: String,
}

pub struct SimulationConfig {
    pub message_delay: u64,
    pub control_plane_message_delay: u64,
    pub pod_start_duration: u64,
    pub pod_stop_duration: u64,
    pub node_stop_duration: u64,
    pub pod_initial_backoff_duration: u64,
    pub pod_max_backoff_duration: u64,
    pub cluster_autoscaler_scan_interval: u64,
    pub default_node: NodeConfig,
    pub default_node_allocation_time: u64,
    pub cloud_nodes_count: u64,
    pub metrics_server_interval: u64,
    pub vpa_interval: u64,
    pub hpa_interval: u64,
    pub memory_pressure_threshold: u64,
    pub update_pods_resources_period: u64,
    pub nodes: Vec<NodeConfig>,
    pub trace: Option<DatasetConfig>,
}

impl SimulationConfig {
    pub open spec fn wf(&self) -> bool {
        &&& self.message_delay <= MAX_TIME
        &&& self.control_plane_message_delay <= MAX_TIME
        &&& self.pod_start_duration <= MAX_TIME
        &&& self.pod_stop_duration <= MAX_TIME
        &&& self.node_stop_duration <= MAX_TIME
        &&& self.pod_initial_backoff_duration <= MAX_TIME
        &&& self.pod_max_backoff_duration <= MAX_TIME
        &&& self.cluster_autoscaler_scan_interval <= MAX_TIME
        &&& self.default_node.cpu <= MAX_RESOURCE
        &&& self.default_node.memory <= MAX_RESOURCE
        &&& self.default_node_allocation_time <= MAX_TIME
        &&& self.metrics_server_interval <= MAX_TIME
        &&& self.vpa_interval <= MAX_TIME
        &&& self.hpa_interval <= MAX_TIME
        &&& self.memory_pressure_threshold <= 1000
        &&& self.update_pods_resources_period <= MAX_TIME
    }

    /// The defaults: 0.2 s message delay, no control-plane delay, 5 s pod start and
    /// stop, 30 s node stop, backoff from 1 s to 10 s, a 10 s autoscaler scan, default
    /// nodes of 8 CPU and 64 memory allocated in 120 s from a pool of 100, 30 s metrics,
    /// vertical and horizontal intervals, a 0.95 pressure threshold and 10 s
    /// reconciliation.
    pub fn new() -> (r: Self)
        ensures
            r.wf(),
            r.message_delay == 200,
            r.control_plane_message_delay == 0,
            r.pod_initial_backoff_duration == 1000,
            r.pod_max_backoff_duration == 10_000,
            r.memory_pressure_threshold == 950,
            r.nodes@.len() == 0,
            r.trace.is_none(),
    {
        Self {
            message_delay: 200,
            control_plane_message_delay: 0,
            pod_start_duration: 5000,
            pod_stop_duration: 5000,
            node_stop_duration: 30_000,
            pod_initial_backoff_duration: 1000,
            pod_max_backoff_duration: 10_000,
            cluster_autoscaler_scan_interval: 10_000,
            default_node: NodeConfig { cpu: 8000, memory: 64_000, count: 1 },
            default_node_allocation_time: 120_000,
            cloud_nodes_count: 100,
            metrics_server_interval: 30_000,
            vpa_interval: 30_000,
            hpa_interval: 30_000,
            memory_pressure_threshold: 950,
            update_pods_resources_period: 10_000,
            nodes: Vec::new(),
            trace: None,
        }
    }
}

} // verus!

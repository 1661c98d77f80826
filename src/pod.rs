//! The pod: the unit of scheduling, with its requests, limits and load models.
use vstd::prelude::*;
use crate::load_model::{LoadModel, MAX_RESOURCE};

verus! {

#[derive(PartialEq, Eq, Structural, Clone, Copy, Debug)]
pub enum PodStatus {
    Pending,
    Running,
    Succeeded,
    Failed,
    Unknown,
}

impl PodStatus {
    pub fn name(&self) -> (r: &'static str) {
        match self {
            PodStatus::Pending => "pending",
            PodStatus::Running => "running",
            PodStatus::Succeeded => "succeeded",
            PodStatus::Failed => "failed",
            PodStatus::Unknown => "unknown",
        }
    }
}

pub struct Pod {
    pub id: u64,
    /// Amounts currently assigned on a node (zero while not placed).
    pub cpu: u64,
    pub memory: u64,
    pub cpu_load_model: LoadModel,
    pub memory_load_model: LoadModel,
    pub requested_cpu: u64,
    pub requested_memory: u64,
    pub limit_cpu: u64,
    pub limit_memory: u64,
    pub priority_weight: u64,
    pub scheduling_attempts: Option<u64>,
    pub scheduling_timestamp: Option<u64>,
    pub start_time: u64,
    pub status: PodStatus,
    pub deployment_id: Option<u64>,
}

/// The larger of two amounts.
pub open spec fn max_of(a: int, b: int) -> int {
    if a >= b {
        a
    } else {
        b
    }
}

/// The smaller of two amounts.
pub open spec fn min_of(a: int, b: int) -> int {
    if a <= b {
        a
    } else {
        b
    }
}

pub fn max_u64(a: u64, b: u64) -> (r: u64)
    ensures
        r == max_of(a as int, b as int),
{
    if a >= b {
        a
    } else {
        b
    }
}

pub fn min_u64(a: u64, b: u64) -> (r: u64)
    ensures
        r == min_of(a as int, b as int),
{
    if a <= b {
        a
    } else {
        b
    }
}

impl Pod {
    pub open spec fn wf(&self) -> bool {
        &&& self.cpu_load_model.wf()
        &&& self.memory_load_model.wf()
        &&& self.requested_cpu <= MAX_RESOURCE
        &&& self.requested_memory <= MAX_RESOURCE
        &&& self.limit_cpu <= MAX_RESOURCE
        &&& self.limit_memory <= MAX_RESOURCE
        &&& self.cpu <= MAX_RESOURCE
        &&& self.memory <= MAX_RESOURCE
    }

    /// What the pod holds of a node's CPU: its use, or its request when that is larger.
    pub open spec fn cpu_share(&self) -> int {
        max_of(self.cpu as int, self.requested_cpu as int)
    }

    pub open spec fn memory_share(&self) -> int {
        max_of(self.memory as int, self.requested_memory as int)
    }

    /// Time since the pod started, as the load models see it.
    pub open spec fn since_start(&self, time: u64) -> u64 {
        if self.start_time <= time {
            (time - self.start_time) as u64
        } else {
            0
        }
    }

    pub open spec fn wanted_cpu(&self, time: u64, cnt_replicas: u64) -> int {
        self.cpu_load_model.value(time, self.since_start(time), cnt_replicas)
    }

    pub open spec fn wanted_memory(&self, time: u64, cnt_replicas: u64) -> int {
        self.memory_load_model.value(time, self.since_start(time), cnt_replicas)
    }

    /// The same pod, taken off its node: nothing assigned.
    pub open spec fn detached(&self) -> Pod {
        Pod { cpu: 0, memory: 0, ..*self }
    }

    pub fn new(
        id: u64,
        cpu_load_model: LoadModel,
        memory_load_model: LoadModel,
        requested_cpu: u64,
        requested_memory: u64,
        limit_cpu: u64,
        limit_memory: u64,
        priority_weight: u64,
        status: PodStatus,
        deployment_id: Option<u64>,
    ) -> (r: Self)
        ensures
            r.id == id,
            r.cpu == 0 && r.memory == 0,
            r.cpu_load_model == cpu_load_model,
            r.memory_load_model == memory_load_model,
            r.requested_cpu == requested_cpu,
            r.requested_memory == requested_memory,
            r.limit_cpu == limit_cpu,
            r.limit_memory == limit_memory,
            r.priority_weight == priority_weight,
            r.scheduling_attempts.is_none(),
            r.scheduling_timestamp.is_none(),
            r.start_time == 0,
            r.status == status,
            r.deployment_id == deployment_id,
    {
        Self {
            id,
            cpu: 0,
            memory: 0,
            cpu_load_model,
            memory_load_model,
            requested_cpu,
            requested_memory,
            limit_cpu,
            limit_memory,
            priority_weight,
            scheduling_attempts: None,
            scheduling_timestamp: None,
            start_time: 0,
            status,
            deployment_id,
        }
    }

    pub fn get_wanted_cpu(&self, time: u64, cnt_replicas: u64) -> (r: u64)
        requires
            self.wf(),
        ensures
            r == self.wanted_cpu(time, cnt_replicas),
    {
        let since: u64 = if self.start_time <= time {
            time - self.start_time
        } else {
            0
        };
        self.cpu_load_model.resource_at(time, since, cnt_replicas)
    }

    pub fn get_wanted_memory(&self, time: u64, cnt_replicas: u64) -> (r: u64)
        requires
            self.wf(),
        ensures
            r == self.wanted_memory(time, cnt_replicas),
    {
        let since: u64 = if self.start_time <= time {
            time - self.start_time
        } else {
            0
        };
        self.memory_load_model.resource_at(time, since, cnt_replicas)
    }
}

} // verus!

//! Deployments: a pod template and the number of replicas minted from it.
use vstd::prelude::*;
use crate::load_model::{LoadModel, MAX_RESOURCE};
use crate::pod::{Pod, PodStatus};

verus! {

pub struct PodTemplate {
    pub cpu_load_model: LoadModel,
    pub memory_load_model: LoadModel,
    pub requested_cpu: u64,
    pub requested_memory: u64,
    pub limit_cpu: u64,
    pub limit_memory: u64,
    pub priority_weight: u64,
}

impl PodTemplate {
    pub open spec fn wf(&self) -> bool {
        &&& self.cpu_load_model.wf()
        &&& self.memory_load_model.wf()
        &&& self.requested_cpu <= MAX_RESOURCE
        &&& self.requested_memory <= MAX_RESOURCE
        &&& self.limit_cpu <= MAX_RESOURCE
        &&& self.limit_memory <= MAX_RESOURCE
    }
}

pub struct Deployment {
    pub id: u64,
    pub pod_template: PodTemplate,
    pub cnt_replicas: u64,
}

impl Deployment {
    pub open spec fn wf(&self) -> bool {
        self.pod_template.wf()
    }

    pub fn new(id: u64, pod_template: PodTemplate, cnt_replicas: u64) -> (r: Self)
        ensures
            r.id == id,
            r.pod_template == pod_template,
            r.cnt_replicas == cnt_replicas,
    {
        Self { id, pod_template, cnt_replicas }
    }

    /// A fresh pending pod with identifier `id`, minted from the template.
    pub fn create_new_replica(&self, id: u64) -> (r: Pod)
        requires
            self.wf(),
        ensures
            r.wf(),
            r.id == id,
            r.cpu == 0 && r.memory == 0,
            r.cpu_load_model.same_shape(&self.pod_template.cpu_load_model),
            r.memory_load_model.same_shape(&self.pod_template.memory_load_model),
            r.requested_cpu == self.pod_template.requested_cpu,
            r.requested_memory == self.pod_template.requested_memory,
            r.limit_cpu == self.pod_template.limit_cpu,
            r.limit_memory == self.pod_template.limit_memory,
            r.priority_weight == self.pod_template.priority_weight,
            r.scheduling_attempts.is_none(),
            r.start_time == 0,
            r.status == PodStatus::Pending,
            r.deployment_id == Some(self.id),
    {
        Pod::new(
            id,
            self.pod_template.cpu_load_model.clone_model(),
            self.pod_template.memory_load_model.clone_model(),
            self.pod_template.requested_cpu,
            self.pod_template.requested_memory,
            self.pod_template.limit_cpu,
            self.pod_template.limit_memory,
            self.pod_template.priority_weight,
            PodStatus::Pending,
            Some(self.id),
        )
    }
}

/// The declared replica count of the deployment `dep` among `deps`; 1 for a pod that
/// belongs to no known deployment.
pub open spec fn replica_count(deps: Seq<Deployment>, dep: Option<u64>) -> u64
    decreases deps.len(),
{
    match dep {
        None => 1,
        Some(id) => if deps.len() == 0 {
            1
        } else if deps[0].id == id {
            deps[0].cnt_replicas
        } else {
            replica_count(deps.drop_first(), dep)
        },
    }
}

pub fn get_replica_count(deps: &Vec<Deployment>, dep: Option<u64>) -> (r: u64)
    ensures
        r == replica_count(deps@, dep),
{
    match dep {
        None => 1,
        Some(id) => {
            let mut i: usize = 0;
            proof {
                assert(deps@.subrange(0, deps@.len() as int) =~= deps@);
            }
            while i < deps.len()
                invariant
                    i <= deps@.len(),
                    dep == Some(id),
                    replica_count(deps@, dep) == replica_count(deps@.subrange(i as int, deps@.len() as int), dep),
                decreases deps@.len() - i,
            {
                proof {
                    let rest = deps@.subrange(i as int, deps@.len() as int);
                    assert(rest.drop_first() =~= deps@.subrange(i as int + 1, deps@.len() as int));
                    assert(rest[0] == deps@[i as int]);
                    assert(replica_count(rest, dep) == if rest[0].id == id {
                        rest[0].cnt_replicas
                    } else {
                        replica_count(rest.drop_first(), dep)
                    });
                }
                if deps[i].id == id {
                    return deps[i].cnt_replicas;
                }
                i += 1;
            }
            1
        },
    }
}

} // verus!

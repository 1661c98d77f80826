//! Horizontal autoscaling: the replica count that brings a deployment's average use
//! to its target utilization.
use vstd::prelude::*;
use crate::load_model::MAX_RESOURCE;
use crate::metrics_server::PodSnapshot;

verus! {

/// Which resources drive the replica count, each with its target utilization in per
/// mille of the request (a missing target means the full request).
#[derive(Clone, Copy)]
pub enum ControlledResources {
    CPUOnly { cpu_utilization: Option<u64> },
    MemoryOnly { memory_utilization: Option<u64> },
    CPUAndMemory { cpu_utilization: Option<u64>, memory_utilization: Option<u64> },
}

/// What the algorithm reads of one replica: how long it has been observed and its last
/// snapshot.
#[derive(Clone, Copy)]
pub struct ReplicaLoad {
    pub history_time: u64,
    pub last_snapshot: PodSnapshot,
}

pub open spec fn sum_cpu(s: Seq<ReplicaLoad>) -> int
    decreases s.len(),
{
    if s.len() == 0 {
        0
    } else {
        sum_cpu(s.drop_last()) + s.last().last_snapshot.cpu
    }
}

pub open spec fn sum_memory(s: Seq<ReplicaLoad>) -> int
    decreases s.len(),
{
    if s.len() == 0 {
        0
    } else {
        sum_memory(s.drop_last()) + s.last().last_snapshot.memory
    }
}

pub open spec fn target_of(t: Option<u64>) -> int {
    match t {
        None => 1000,
        Some(v) => v as int,
    }
}

/// The replicas needed so that `total` use is `target` per mille of `requested` per
/// replica: `ceil(total / (requested · target / 1000))`; unbounded (`None`) when the
/// target amount is zero.
pub open spec fn needed(total: int, requested: u64, target: int) -> Option<int> {
    if requested * target == 0 {
        None
    } else {
        Some((total * 1000 + requested * target - 1) / (requested * target))
    }
}

/// `needed` clamped to `[lo, hi]` (an unbounded need gives `hi`).
pub open spec fn clamp(n: Option<int>, lo: u64, hi: u64) -> int {
    match n {
        None => hi as int,
        Some(v) => if v > hi {
            hi as int
        } else if v < lo {
            lo as int
        } else {
            v
        },
    }
}

pub open spec fn max_need(a: Option<int>, b: Option<int>) -> Option<int> {
    match (a, b) {
        (Some(x), Some(y)) => Some(if x >= y { x } else { y }),
        _ => None,
    }
}

pub struct ResourcesHorizontalAutoscalerAlgorithm {
    pub controlled_resources: ControlledResources,
    /// Deployments scaled down, with the time of their last downscale.
    pub last_downscale_time: Vec<(u64, u64)>,
    pub initialization_period: u64,
    pub time_downscale_stabilization: u64,
    pub min_replicas: u64,
    pub max_replicas: u64,
}

/// The recorded time of the last downscale of deployment `id`, if any.
pub open spec fn last_downscale(s: Seq<(u64, u64)>, id: u64) -> Option<u64>
    decreases s.len(),
{
    if s.len() == 0 {
        None
    } else if s.last().0 == id {
        Some(s.last().1)
    } else {
        last_downscale(s.drop_last(), id)
    }
}

fn ceil_div(a: u128, b: u128) -> (r: u128)
    requires
        b > 0,
        a + b <= u128::MAX,
    ensures
        r == (a + b - 1) / (b as int),
{
    (a + b - 1) / b
}

impl ResourcesHorizontalAutoscalerAlgorithm {
    pub fn new(
        controlled_resources: ControlledResources,
        initialization_period: u64,
        time_downscale_stabilization: u64,
        min_replicas: u64,
        max_replicas: u64,
    ) -> (r: Self)
        ensures
            r.controlled_resources == controlled_resources,
            r.last_downscale_time@.len() == 0,
            r.initialization_period == initialization_period,
            r.time_downscale_stabilization == time_downscale_stabilization,
            r.min_replicas == min_replicas,
            r.max_replicas == max_replicas,
    {
        Self {
            controlled_resources,
            last_downscale_time: Vec::new(),
            initialization_period,
            time_downscale_stabilization,
            min_replicas,
            max_replicas,
        }
    }

    /// The replica count for the given total use, before the history checks.
    pub open spec fn recommended(&self, total_cpu: int, total_memory: int, requested_cpu: u64, requested_memory: u64) -> int {
        let n = match self.controlled_resources {
            ControlledResources::CPUOnly { cpu_utilization } => needed(
                total_cpu,
                requested_cpu,
                target_of(cpu_utilization),
            ),
            ControlledResources::MemoryOnly { memory_utilization } => needed(
                total_memory,
                requested_memory,
                target_of(memory_utilization),
            ),
            ControlledResources::CPUAndMemory { cpu_utilization, memory_utilization } => max_need(
                needed(total_cpu, requested_cpu, target_of(cpu_utilization)),
                needed(total_memory, requested_memory, target_of(memory_utilization)),
            ),
        };
        clamp(n, self.min_replicas, self.max_replicas)
    }

    pub open spec fn targets_bounded(&self) -> bool {
        match self.controlled_resources {
            ControlledResources::CPUOnly { cpu_utilization } => target_of(cpu_utilization) <= 1_000_000,
            ControlledResources::MemoryOnly { memory_utilization } => target_of(memory_utilization) <= 1_000_000,
            ControlledResources::CPUAndMemory { cpu_utilization, memory_utilization } =>
                target_of(cpu_utilization) <= 1_000_000 && target_of(memory_utilization) <= 1_000_000,
        }
    }

    fn find_downscale(&self, id: u64) -> (r: Option<u64>)
        ensures
            r == last_downscale(self.last_downscale_time@, id),
    {
        let mut i: usize = self.last_downscale_time.len();
        proof {
            assert(self.last_downscale_time@.subrange(0, i as int) =~= self.last_downscale_time@);
        }
        while i > 0
            invariant
                i <= self.last_downscale_time@.len(),
                last_downscale(self.last_downscale_time@, id) == last_downscale(
                    self.last_downscale_time@.subrange(0, i as int),
                    id,
                ),
            decreases i,
        {
            proof {
                let t = self.last_downscale_time@.subrange(0, i as int);
                assert(t.drop_last() =~= self.last_downscale_time@.subrange(0, i as int - 1));
            }
            if self.last_downscale_time[i - 1].0 == id {
                return Some(self.last_downscale_time[i - 1].1);
            }
            i -= 1;
        }
        None
    }

    fn needed_count(total: u128, requested: u64, target: Option<u64>) -> (r: Option<u128>)
        requires
            total <= u64::MAX * MAX_RESOURCE,
            target_of(target) <= 1_000_000,
        ensures
            match needed(total as int, requested, target_of(target)) {
                None => r.is_none(),
                Some(v) => r matches Some(x) && x as int == v,
            },
    {
        let t: u64 = match target {
            None => 1000,
            Some(v) => v,
        };
        assert((requested as int) * (t as int) <= u64::MAX * 1_000_000) by (nonlinear_arith)
            requires
                t <= 1_000_000,
        ;
        let denom: u128 = (requested as u128) * (t as u128);
        if denom == 0 {
            return None;
        }
        let c = ceil_div(total * 1000, denom);
        proof {
            assert(c as int == (total * 1000 + denom - 1) / (denom as int));
        }
        Some(c)
    }

    fn clamp_count(&self, n: Option<u128>) -> (r: u64)
        ensures
            r == clamp(
                match n {
                    None => None,
                    Some(v) => Some(v as int),
                },
                self.min_replicas,
                self.max_replicas,
            ),
    {
        match n {
            None => self.max_replicas,
            Some(v) => if v > self.max_replicas as u128 {
                self.max_replicas
            } else if v < self.min_replicas as u128 {
                self.min_replicas
            } else {
                v as u64
            },
        }
    }

    /// The new replica count of deployment `deployment_id`, now holding `cnt_replicas`
    /// replicas with the given requests. It stays the same while the last downscale is
    /// within the stabilization time, or while some replica has been observed for less
    /// than the initialization period; otherwise it is the count that brings the total
    /// use to the target utilization, clamped to `[min_replicas, max_replicas]`. A
    /// decrease is recorded as a downscale at `now_time`.
    pub fn get_new_count_replicas(
        &mut self,
        deployment_id: u64,
        cnt_replicas: u64,
        requested_cpu: u64,
        requested_memory: u64,
        statistics: &Vec<ReplicaLoad>,
        now_time: u64,
    ) -> (r: u64)
        requires
            old(self).targets_bounded(),
            statistics@.len() <= u64::MAX,
            forall|k: int| 0 <= k < statistics@.len() ==> (#[trigger] statistics@[k]).last_snapshot.cpu <= MAX_RESOURCE
                && statistics@[k].last_snapshot.memory <= MAX_RESOURCE,
        ensures
            final(self).controlled_resources == old(self).controlled_resources,
            final(self).min_replicas == old(self).min_replicas,
            final(self).max_replicas == old(self).max_replicas,
            final(self).initialization_period == old(self).initialization_period,
            final(self).time_downscale_stabilization == old(self).time_downscale_stabilization,
            ({
                let stabilizing = match last_downscale(old(self).last_downscale_time@, deployment_id) {
                    Some(t) => t + old(self).time_downscale_stabilization > now_time,
                    None => false,
                };
                let young = exists|k: int| 0 <= k < statistics@.len() && (#[trigger] statistics@[k]).history_time < old(self).initialization_period;
                if stabilizing || young {
                    r == cnt_replicas
                } else {
                    r == old(self).recommended(
                        sum_cpu(statistics@),
                        sum_memory(statistics@),
                        requested_cpu,
                        requested_memory,
                    )
                }
            }),
            r < cnt_replicas ==> last_downscale(final(self).last_downscale_time@, deployment_id) == Some(now_time),
            r >= cnt_replicas ==> final(self).last_downscale_time@ == old(self).last_downscale_time@,
    {
        match self.find_downscale(deployment_id) {
            Some(t) => {
                if t as u128 + self.time_downscale_stabilization as u128 > now_time as u128 {
                    return cnt_replicas;
                }
            },
            None => {},
        }
        let mut total_cpu: u128 = 0;
        let mut total_memory: u128 = 0;
        let mut i: usize = 0;
        while i < statistics.len()
            invariant
                i <= statistics@.len(),
                statistics@.len() <= u64::MAX,
                forall|k: int| 0 <= k < statistics@.len() ==> (#[trigger] statistics@[k]).last_snapshot.cpu <= MAX_RESOURCE
                    && statistics@[k].last_snapshot.memory <= MAX_RESOURCE,
                forall|k: int| 0 <= k < i ==> (#[trigger] statistics@[k]).history_time >= self.initialization_period,
                total_cpu == sum_cpu(statistics@.subrange(0, i as int)),
                total_memory == sum_memory(statistics@.subrange(0, i as int)),
                total_cpu <= i * MAX_RESOURCE,
                total_memory <= i * MAX_RESOURCE,
            decreases statistics@.len() - i,
        {
            let st = statistics[i];
            if st.history_time < self.initialization_period {
                return cnt_replicas;
            }
            proof {
                let t = statistics@.subrange(0, i as int + 1);
                assert(t.drop_last() =~= statistics@.subrange(0, i as int));
            }
            total_cpu = total_cpu + st.last_snapshot.cpu as u128;
            total_memory = total_memory + st.last_snapshot.memory as u128;
            i += 1;
        }
        proof {
            assert(statistics@.subrange(0, i as int) =~= statistics@);
            assert(i * MAX_RESOURCE <= u64::MAX * MAX_RESOURCE) by (nonlinear_arith)
                requires
                    i <= u64::MAX,
            ;
        }
        let n: Option<u128> = match self.controlled_resources {
            ControlledResources::CPUOnly { cpu_utilization } => Self::needed_count(
                total_cpu,
                requested_cpu,
                cpu_utilization,
            ),
            ControlledResources::MemoryOnly { memory_utilization } => Self::needed_count(
                total_memory,
                requested_memory,
                memory_utilization,
            ),
            ControlledResources::CPUAndMemory { cpu_utilization, memory_utilization } => {
                let a = Self::needed_count(total_cpu, requested_cpu, cpu_utilization);
                let b = Self::needed_count(total_memory, requested_memory, memory_utilization);
                match (a, b) {
                    (Some(x), Some(y)) => Some(
                        if x >= y {
                            x
                        } else {
                            y
                        },
                    ),
                    _ => None,
                }
            },
        };
        proof {
            let nn: Option<int> = match n {
                None => None,
                Some(v) => Some(v as int),
            };
            let spec_n = match self.controlled_resources {
                ControlledResources::CPUOnly { cpu_utilization } => needed(
                    total_cpu as int,
                    requested_cpu,
                    target_of(cpu_utilization),
                ),
                ControlledResources::MemoryOnly { memory_utilization } => needed(
                    total_memory as int,
                    requested_memory,
                    target_of(memory_utilization),
                ),
                ControlledResources::CPUAndMemory { cpu_utilization, memory_utilization } => max_need(
                    needed(total_cpu as int, requested_cpu, target_of(cpu_utilization)),
                    needed(total_memory as int, requested_memory, target_of(memory_utilization)),
                ),
            };
            assert(nn == spec_n);
            assert(!(exists|k: int| 0 <= k < statistics@.len() && (#[trigger] statistics@[k]).history_time < old(self).initialization_period));
        }
        let r = self.clamp_count(n);
        if r < cnt_replicas {
            self.last_downscale_time.push((deployment_id, now_time));
            proof {
                assert(self.last_downscale_time@.last() == (deployment_id, now_time));
            }
        }
        r
    }
}

} // verus!

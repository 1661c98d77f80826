//! Resource load models: how much of a resource a pod wants at a given moment.
//!
//! Every amount is a whole number of milli-units and every time a whole number of
//! milliseconds. A model's value is the demand of a whole deployment, divided evenly
//! between its replicas.
use vstd::prelude::*;
use vstd::arithmetic::div_mod::{lemma_div_is_ordered, lemma_div_multiples_vanish};
use vstd::arithmetic::mul::lemma_mul_inequality;

verus! {

/// Upper bound on every resource amount handled by the library (in milli-units).
pub const MAX_RESOURCE: u64 = 1_099_511_627_776;

/// Divides a total demand evenly among the replicas of a deployment.
pub open spec fn per_replica(total: int, cnt_replicas: u64) -> int {
    if cnt_replicas == 0 {
        total
    } else {
        total / (cnt_replicas as int)
    }
}

pub fn split_between_replicas(total: u64, cnt_replicas: u64) -> (r: u64)
    ensures
        r == per_replica(total as int, cnt_replicas),
        r <= total,
{
    if cnt_replicas == 0 {
        total
    } else {
        total / cnt_replicas
    }
}

/// The share `min(elapsed, duration) / duration` of `span`, rounded down.
pub open spec fn ramp(elapsed: int, duration: int, span: int) -> int {
    let e = if elapsed < duration { elapsed } else { duration };
    (e * span) / duration
}

proof fn lemma_ramp_bounded(elapsed: int, duration: int, span: int)
    requires
        0 <= elapsed,
        0 < duration,
        0 <= span,
    ensures
        0 <= ramp(elapsed, duration, span) <= span,
{
    let e = if elapsed < duration { elapsed } else { duration };
    lemma_mul_inequality(e, duration, span);
    assert(0 <= e * span) by (nonlinear_arith)
        requires
            0 <= e,
            0 <= span,
    ;
    lemma_div_is_ordered(0, e * span, duration);
    lemma_div_is_ordered(e * span, duration * span, duration);
    assert(duration * span == span * duration) by (nonlinear_arith);
    lemma_div_multiples_vanish(span, duration);
}

fn compute_ramp(elapsed: u64, duration: u64, span: u64) -> (r: u64)
    requires
        0 < duration,
    ensures
        r == ramp(elapsed as int, duration as int, span as int),
        r <= span,
{
    proof {
        lemma_ramp_bounded(elapsed as int, duration as int, span as int);
    }
    let e: u64 = if elapsed < duration {
        elapsed
    } else {
        duration
    };
    assert((e as int) * (span as int) <= u128::MAX) by (nonlinear_arith)
        requires
            e <= u64::MAX,
            span <= u64::MAX,
    ;
    let prod: u128 = (e as u128) * (span as u128);
    let q: u128 = prod / (duration as u128);
    q as u64
}

/// A demand that never changes.
pub struct ConstantLoadModel {
    pub resource: u64,
}

impl ConstantLoadModel {
    pub fn new(resource: u64) -> (r: Self)
        ensures
            r.resource == resource,
    {
        Self { resource }
    }
}

/// A demand that falls linearly from `start_resource` to `end_resource` over
/// `decrease_time`, then stays at `end_resource`.
pub struct DecreaseLoadModel {
    pub decrease_time: u64,
    pub start_resource: u64,
    pub end_resource: u64,
}

impl DecreaseLoadModel {
    pub open spec fn wf(&self) -> bool {
        self.end_resource <= self.start_resource && self.decrease_time > 0
    }

    pub fn new(decrease_time: u64, start_resource: u64, end_resource: u64) -> (r: Self)
        requires
            end_resource <= start_resource,
            decrease_time > 0,
        ensures
            r.wf(),
            r.decrease_time == decrease_time,
            r.start_resource == start_resource,
            r.end_resource == end_resource,
    {
        Self { decrease_time, start_resource, end_resource }
    }
}

/// A demand that rises linearly from `start_resource` to `end_resource` over
/// `increase_time`, then stays at `end_resource`.
pub struct IncreaseLoadModel {
    pub increase_time: u64,
    pub start_resource: u64,
    pub end_resource: u64,
}

impl IncreaseLoadModel {
    pub open spec fn wf(&self) -> bool {
        self.start_resource <= self.end_resource && self.increase_time > 0
    }

    pub fn new(increase_time: u64, start_resource: u64, end_resource: u64) -> (r: Self)
        requires
            start_resource <= end_resource,
            increase_time > 0,
        ensures
            r.wf(),
            r.increase_time == increase_time,
            r.start_resource == start_resource,
            r.end_resource == end_resource,
    {
        Self { increase_time, start_resource, end_resource }
    }
}

/// One point of a recorded demand: from `timestamp` on, the demand is `resource`.
#[derive(Clone, Copy)]
pub struct ResourceSnapshot {
    pub timestamp: u64,
    pub resource: u64,
}

/// Index of the snapshot in force at `ts` when walking forward from `i`: the walk
/// stops before the first later snapshot whose timestamp exceeds `ts`.
pub open spec fn snapshot_walk(h: Seq<ResourceSnapshot>, ts: u64, i: int) -> int
    decreases h.len() - i,
{
    if 0 <= i && i + 1 < h.len() && h[i + 1].timestamp <= ts {
        snapshot_walk(h, ts, i + 1)
    } else {
        i
    }
}

pub open spec fn sorted_by_time(h: Seq<ResourceSnapshot>) -> bool {
    forall|i: int, j: int| 0 <= i <= j < h.len() ==> h[i].timestamp <= h[j].timestamp
}

/// Index of the snapshot in force at `ts`: the last one whose timestamp is at most
/// `ts`, or the first one when all of them lie later.
pub open spec fn snapshot_at(h: Seq<ResourceSnapshot>, ts: u64) -> int {
    snapshot_walk(h, ts, 0)
}

proof fn lemma_walk_bounds(h: Seq<ResourceSnapshot>, ts: u64, i: int)
    requires
        0 <= i < h.len(),
    ensures
        i <= snapshot_walk(h, ts, i) < h.len(),
    decreases h.len() - i,
{
    if i + 1 < h.len() && h[i + 1].timestamp <= ts {
        lemma_walk_bounds(h, ts, i + 1);
    }
}

proof fn lemma_walk_skips(h: Seq<ResourceSnapshot>, ts: u64, i: int, p: int)
    requires
        sorted_by_time(h),
        0 <= i <= p < h.len(),
        i == p || h[p].timestamp <= ts,
    ensures
        snapshot_walk(h, ts, i) == snapshot_walk(h, ts, p),
    decreases p - i,
{
    if i < p {
        assert(h[i + 1].timestamp <= h[p].timestamp);
        lemma_walk_skips(h, ts, i + 1, p);
    }
}

/// A recorded demand: piecewise constant over timestamped snapshots. A cursor
/// remembers the snapshot found last, so that forward lookups resume from it.
pub struct TraceLoadModel {
    pub resource_history: Vec<ResourceSnapshot>,
    pub now_ptr: usize,
}

impl TraceLoadModel {
    pub open spec fn wf(&self) -> bool {
        &&& self.resource_history@.len() > 0
        &&& sorted_by_time(self.resource_history@)
        &&& self.now_ptr < self.resource_history@.len()
    }

    pub fn new(resource_history: Vec<ResourceSnapshot>) -> (r: Self)
        requires
            resource_history@.len() > 0,
            sorted_by_time(resource_history@),
        ensures
            r.wf(),
            r.resource_history@ == resource_history@,
            r.now_ptr == 0,
    {
        Self { resource_history, now_ptr: 0 }
    }

    /// Walks forward from `now_ptr` to the snapshot in force at `timestamp`.
    pub fn get_now_resource_snapshot(&self, now_ptr: usize, timestamp: u64) -> (r: usize)
        requires
            now_ptr < self.resource_history@.len(),
        ensures
            r == snapshot_walk(self.resource_history@, timestamp, now_ptr as int),
            now_ptr <= r < self.resource_history@.len(),
    {
        let mut ptr = now_ptr;
        while ptr < self.resource_history.len() - 1 && self.resource_history[ptr + 1].timestamp
            <= timestamp
            invariant
                now_ptr <= ptr < self.resource_history@.len(),
                snapshot_walk(self.resource_history@, timestamp, ptr as int) == snapshot_walk(
                    self.resource_history@,
                    timestamp,
                    now_ptr as int,
                ),
            decreases self.resource_history@.len() - ptr,
        {
            ptr += 1;
        }
        ptr
    }

    pub open spec fn value(&self, time: u64, time_from_start: u64, cnt_replicas: u64) -> int {
        let ts = if time_from_start <= time { (time - time_from_start) as u64 } else { 0u64 };
        per_replica(
            self.resource_history@[snapshot_at(self.resource_history@, ts)].resource as int,
            cnt_replicas,
        )
    }

    pub fn get_resource(&mut self, time: u64, time_from_start: u64, cnt_replicas: u64) -> (r: u64)
        requires
            old(self).wf(),
        ensures
            final(self).wf(),
            final(self).resource_history@ == old(self).resource_history@,
            r == old(self).value(time, time_from_start, cnt_replicas),
    {
        let timestamp: u64 = if time_from_start <= time {
            time - time_from_start
        } else {
            0
        };
        if self.resource_history[self.now_ptr].timestamp > timestamp {
            self.now_ptr = 0;
        }
        proof {
            lemma_walk_skips(self.resource_history@, timestamp, 0, self.now_ptr as int);
        }
        let ptr = self.get_now_resource_snapshot(self.now_ptr, timestamp);
        self.now_ptr = ptr;
        split_between_replicas(self.resource_history[ptr].resource, cnt_replicas)
    }
}

/// A demand that varies with time: one of the shapes above.
pub enum LoadModel {
    Constant(ConstantLoadModel),
    Increase(IncreaseLoadModel),
    Decrease(DecreaseLoadModel),
    Trace(TraceLoadModel),
}

impl LoadModel {
    pub open spec fn wf(&self) -> bool {
        match self {
            LoadModel::Constant(_) => true,
            LoadModel::Increase(m) => m.wf(),
            LoadModel::Decrease(m) => m.wf(),
            LoadModel::Trace(m) => m.wf(),
        }
    }

    /// The demand at `time`, `time_from_start` after the pod started, for one of
    /// `cnt_replicas` replicas.
    pub open spec fn value(&self, time: u64, time_from_start: u64, cnt_replicas: u64) -> int {
        match self {
            LoadModel::Constant(m) => per_replica(m.resource as int, cnt_replicas),
            LoadModel::Increase(m) => per_replica(
                m.start_resource + ramp(
                    time_from_start as int,
                    m.increase_time as int,
                    m.end_resource - m.start_resource,
                ),
                cnt_replicas,
            ),
            LoadModel::Decrease(m) => per_replica(
                m.start_resource - ramp(
                    time_from_start as int,
                    m.decrease_time as int,
                    m.start_resource - m.end_resource,
                ),
                cnt_replicas,
            ),
            LoadModel::Trace(m) => m.value(time, time_from_start, cnt_replicas),
        }
    }

    /// The same model, ignoring the lookup cursor of a trace.
    pub open spec fn same_shape(&self, other: &LoadModel) -> bool {
        match (self, other) {
            (LoadModel::Trace(a), LoadModel::Trace(b)) => a.resource_history@
                == b.resource_history@,
            _ => self == other,
        }
    }

    pub fn get_resource(&mut self, time: u64, time_from_start: u64, cnt_replicas: u64) -> (r: u64)
        requires
            old(self).wf(),
        ensures
            final(self).wf(),
            final(self).same_shape(old(self)),
            r == old(self).value(time, time_from_start, cnt_replicas),
    {
        match self {
            LoadModel::Constant(m) => split_between_replicas(m.resource, cnt_replicas),
            LoadModel::Increase(m) => {
                let up = compute_ramp(
                    time_from_start,
                    m.increase_time,
                    m.end_resource - m.start_resource,
                );
                assert(m.start_resource + up <= m.end_resource);
                split_between_replicas(m.start_resource + up, cnt_replicas)
            },
            LoadModel::Decrease(m) => {
                let down = compute_ramp(
                    time_from_start,
                    m.decrease_time,
                    m.start_resource - m.end_resource,
                );
                split_between_replicas(m.start_resource - down, cnt_replicas)
            },
            LoadModel::Trace(m) => m.get_resource(time, time_from_start, cnt_replicas),
        }
    }

    /// The demand at `time`, `time_from_start` after the pod started, for one of
    /// `cnt_replicas` replicas; a trace is searched from its first snapshot.
    pub fn resource_at(&self, time: u64, time_from_start: u64, cnt_replicas: u64) -> (r: u64)
        requires
            self.wf(),
        ensures
            r == self.value(time, time_from_start, cnt_replicas),
    {
        match self {
            LoadModel::Constant(m) => split_between_replicas(m.resource, cnt_replicas),
            LoadModel::Increase(m) => {
                let up = compute_ramp(
                    time_from_start,
                    m.increase_time,
                    m.end_resource - m.start_resource,
                );
                split_between_replicas(m.start_resource + up, cnt_replicas)
            },
            LoadModel::Decrease(m) => {
                let down = compute_ramp(
                    time_from_start,
                    m.decrease_time,
                    m.start_resource - m.end_resource,
                );
                split_between_replicas(m.start_resource - down, cnt_replicas)
            },
            LoadModel::Trace(m) => {
                let timestamp: u64 = if time_from_start <= time {
                    time - time_from_start
                } else {
                    0
                };
                let ptr = m.get_now_resource_snapshot(0, timestamp);
                split_between_replicas(m.resource_history[ptr].resource, cnt_replicas)
            },
        }
    }

    pub fn clone_model(&self) -> (r: LoadModel)
        ensures
            r.same_shape(self),
            self.wf() ==> r.wf(),
    {
        match self {
            LoadModel::Constant(m) => LoadModel::Constant(ConstantLoadModel { resource: m.resource }),
            LoadModel::Increase(m) => LoadModel::Increase(
                IncreaseLoadModel {
                    increase_time: m.increase_time,
                    start_resource: m.start_resource,
                    end_resource: m.end_resource,
                },
            ),
            LoadModel::Decrease(m) => LoadModel::Decrease(
                DecreaseLoadModel {
                    decrease_time: m.decrease_time,
                    start_resource: m.start_resource,
                    end_resource: m.end_resource,
                },
            ),
            LoadModel::Trace(m) => {
                let mut h: Vec<ResourceSnapshot> = Vec::new();
                let mut i: usize = 0;
                while i < m.resource_history.len()
                    invariant
                        i <= m.resource_history@.len(),
                        h@ == m.resource_history@.subrange(0, i as int),
                    decreases m.resource_history@.len() - i,
                {
                    h.push(m.resource_history[i]);
                    i += 1;
                    proof {
                        assert(h@ =~= m.resource_history@.subrange(0, i as int));
                    }
                }
                proof {
                    assert(h@ =~= m.resource_history@);
                }
                LoadModel::Trace(TraceLoadModel { resource_history: h, now_ptr: 0 })
            },
        }
    }
}

} // verus!

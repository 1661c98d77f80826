//! Vertical autoscaling: new requests (and limits) for a pod from the percentiles of
//! its observed use.
use vstd::prelude::*;
use crate::histogram::Histogram;
use crate::load_model::MAX_RESOURCE;
use crate::metrics_server::PodStatistic;
use crate::pod::Pod;

verus! {

/// One day, in milliseconds.
pub const MILLIS_PER_DAY: u64 = 86_400_000;

/// A thousandth of a day, in milliseconds.
pub const MILLIS_PER_MILLIDAY: u64 = 86_400;

/// Observation windows longer than this count as this long (about 35 years).
pub const MAX_HISTORY: u64 = 1_099_511_627_776;

/// Percentiles, in per mille.
pub const LOWER_BOUND_PERCENTILE: u64 = 500;

pub const TARGET_PERCENTILE: u64 = 900;

pub const UPPER_BOUND_PERCENTILE: u64 = 950;

#[derive(PartialEq, Eq, Structural, Clone, Copy)]
pub enum ControlledValuesMode {
    RequestsOnly,
    RequestsAndLimits,
}

#[derive(Clone, Copy)]
pub struct VPARecommendation {
    pub pod_id: u64,
    pub new_requested_cpu: u64,
    pub new_limit_cpu: u64,
    pub new_requested_memory: u64,
    pub new_limit_memory: u64,
}

#[derive(Clone, Copy)]
pub struct AutoVerticalAutoscalerAlgorithm {
    pub controlled_values: ControlledValuesMode,
}

/// The observation window used by the bounds: the histogram's, capped at `MAX_HISTORY`.
pub open spec fn window(h: u64) -> int {
    if h > MAX_HISTORY {
        MAX_HISTORY as int
    } else {
        h as int
    }
}

/// Whether `requested` lies above the upper bound `(1 + 1/days) · upper`, with `days`
/// the window in days (an empty window puts no upper bound).
pub open spec fn above_upper(requested: u64, upper: int, h: int) -> bool {
    if h == 0 {
        false
    } else {
        requested * h > upper * (h + MILLIS_PER_DAY)
    }
}

/// Whether `requested` lies below the lower bound `(1 + 0.001/days)^-2 · lower`
/// (zero for an empty window).
pub open spec fn below_lower(requested: u64, lower: int, h: int) -> bool {
    if h == 0 {
        false
    } else {
        requested * ((h + MILLIS_PER_MILLIDAY) * (h + MILLIS_PER_MILLIDAY)) < lower * (h * h)
    }
}

/// Whether the request must change for a resource whose use has percentiles
/// `lower`, `upper` over a window of `h` ms (never when the histogram is empty).
pub open spec fn out_of_bounds(requested: u64, lower: int, upper: int, h: int) -> bool {
    lower >= 0 && upper >= 0 && (above_upper(requested, upper, h) || below_lower(requested, lower, h))
}

/// A limit that keeps its ratio to the request: `new_request · limit / request`,
/// capped at `MAX_RESOURCE` (the limit stays when the request is zero).
pub open spec fn scaled_limit(new_request: int, limit: u64, request: u64) -> int {
    if request == 0 {
        limit as int
    } else if new_request * limit / (request as int) > MAX_RESOURCE {
        MAX_RESOURCE as int
    } else {
        new_request * limit / (request as int)
    }
}

fn get_above_upper(requested: u64, upper: i64, h: u64) -> (r: bool)
    requires
        upper >= 0,
        upper <= MAX_RESOURCE,
        h <= MAX_HISTORY,
    ensures
        r == above_upper(requested, upper as int, h as int),
{
    if h == 0 {
        false
    } else {
        assert((requested as int) * (h as int) <= u64::MAX * MAX_HISTORY) by (nonlinear_arith)
            requires
                h <= MAX_HISTORY,
        ;
        assert((upper as int) * (h + MILLIS_PER_DAY) <= MAX_RESOURCE * (MAX_HISTORY + MILLIS_PER_DAY)) by (nonlinear_arith)
            requires
                h <= MAX_HISTORY,
                0 <= upper <= MAX_RESOURCE,
        ;
        (requested as u128) * (h as u128) > (upper as u128) * ((h + MILLIS_PER_DAY) as u128)
    }
}

fn get_below_lower(requested: u64, lower: i64, h: u64) -> (r: bool)
    requires
        requested <= MAX_RESOURCE,
        lower >= 0,
        lower <= MAX_RESOURCE,
        h <= MAX_HISTORY,
    ensures
        r == below_lower(requested, lower as int, h as int),
{
    if h == 0 {
        false
    } else {
        let w: u128 = (h + MILLIS_PER_MILLIDAY) as u128;
        assert(w * w <= (MAX_HISTORY + MILLIS_PER_MILLIDAY) * (MAX_HISTORY + MILLIS_PER_MILLIDAY)) by (nonlinear_arith)
            requires
                w <= MAX_HISTORY + MILLIS_PER_MILLIDAY,
        ;
        let w2: u128 = w * w;
        assert((requested as int) * w2 <= MAX_RESOURCE * ((MAX_HISTORY + MILLIS_PER_MILLIDAY) * (MAX_HISTORY + MILLIS_PER_MILLIDAY))) by (nonlinear_arith)
            requires
                requested <= MAX_RESOURCE,
                w2 <= (MAX_HISTORY + MILLIS_PER_MILLIDAY) * (MAX_HISTORY + MILLIS_PER_MILLIDAY),
        ;
        assert((h as int) * (h as int) <= MAX_HISTORY * MAX_HISTORY) by (nonlinear_arith)
            requires
                h <= MAX_HISTORY,
        ;
        let h2: u128 = (h as u128) * (h as u128);
        assert((lower as int) * h2 <= MAX_RESOURCE * (MAX_HISTORY * MAX_HISTORY)) by (nonlinear_arith)
            requires
                0 <= lower <= MAX_RESOURCE,
                h2 <= MAX_HISTORY * MAX_HISTORY,
        ;
        (requested as u128) * w2 < (lower as u128) * h2
    }
}

fn get_scaled_limit(new_request: u64, limit: u64, request: u64) -> (r: u64)
    requires
        new_request <= MAX_RESOURCE,
    ensures
        r == scaled_limit(new_request as int, limit, request),
{
    if request == 0 {
        limit
    } else {
        assert((new_request as int) * (limit as int) <= MAX_RESOURCE * u64::MAX) by (nonlinear_arith)
            requires
                new_request <= MAX_RESOURCE,
        ;
        let v: u128 = (new_request as u128) * (limit as u128) / (request as u128);
        if v > MAX_RESOURCE as u128 {
            MAX_RESOURCE
        } else {
            v as u64
        }
    }
}

/// Upper bound on what a percentile query of a well-formed histogram returns.
proof fn lemma_percentile_bounded(h: Histogram, q: u64)
    requires
        h.wf(),
    ensures
        h.percentile_spec(q) <= h.bucket_size * 99,
{
    let b = crate::histogram::percentile_walk(h.weights(), h.max_bucket as int, q, h.total_weight, h.min_bucket as int, 0);
    if !h.is_empty() {
        lemma_walk_below(h.weights(), h.max_bucket as int, q, h.total_weight, h.min_bucket as int, 0);
        let rb = crate::histogram::reported_bucket(b);
        assert(0 <= rb <= 99);
        assert(h.bucket_size * rb <= h.bucket_size * 99) by (nonlinear_arith)
            requires
                0 <= rb <= 99,
                h.bucket_size >= 0,
        ;
    }
}

proof fn lemma_walk_below(w: Seq<u64>, hi: int, q: u64, total: u64, b: int, acc: int)
    requires
        0 <= b <= hi,
    ensures
        b <= crate::histogram::percentile_walk(w, hi, q, total, b, acc) <= hi,
    decreases hi - b,
{
    if b < hi && !crate::histogram::reaches(acc + w[b], q, total) {
        lemma_walk_below(w, hi, q, total, b + 1, acc + w[b]);
    }
}

impl AutoVerticalAutoscalerAlgorithm {
    pub fn new(controlled_values: ControlledValuesMode) -> (r: Self)
        ensures
            r.controlled_values == controlled_values,
    {
        Self { controlled_values }
    }

    /// The new request and limit of one resource, or `None` when it stays.
    /// (Both resources are judged over the CPU histogram's observation window.)
    pub open spec fn resource_change(&self, requested: u64, limit: u64, dist: Histogram, history: u64) -> Option<(int, int)> {
        let h = window(history);
        let lower = dist.percentile_spec(LOWER_BOUND_PERCENTILE);
        let upper = dist.percentile_spec(UPPER_BOUND_PERCENTILE);
        let target = dist.percentile_spec(TARGET_PERCENTILE);
        if out_of_bounds(requested, lower, upper, h) && target >= 0 {
            Some(
                (
                    target,
                    if self.controlled_values == ControlledValuesMode::RequestsAndLimits {
                        scaled_limit(target, limit, requested)
                    } else {
                        limit as int
                    },
                ),
            )
        } else {
            None
        }
    }

    fn compute_change(&self, requested: u64, limit: u64, dist: &Histogram, hist: u64) -> (r: Option<(u64, u64)>)
        requires
            dist.wf(),
            requested <= MAX_RESOURCE,
        ensures
            match self.resource_change(requested, limit, *dist, hist) {
                None => r.is_none(),
                Some((a, b)) => r matches Some((x, y)) && x == a && y == b,
            },
    {
        let h: u64 = if hist > MAX_HISTORY {
            MAX_HISTORY
        } else {
            hist
        };
        let lower = dist.percentile(LOWER_BOUND_PERCENTILE);
        let upper = dist.percentile(UPPER_BOUND_PERCENTILE);
        let target = dist.percentile(TARGET_PERCENTILE);
        proof {
            lemma_percentile_bounded(*dist, LOWER_BOUND_PERCENTILE);
            lemma_percentile_bounded(*dist, UPPER_BOUND_PERCENTILE);
            lemma_percentile_bounded(*dist, TARGET_PERCENTILE);
        }
        if lower < 0 || upper < 0 || target < 0 {
            return None;
        }
        if !(get_above_upper(requested, upper, h) || get_below_lower(requested, lower, h)) {
            return None;
        }
        let new_request = target as u64;
        let new_limit = if self.controlled_values == ControlledValuesMode::RequestsAndLimits {
            get_scaled_limit(new_request, limit, requested)
        } else {
            limit
        };
        Some((new_request, new_limit))
    }

    /// A recommendation for `pod` from its statistic: for each resource whose request
    /// lies outside the bounds, the target percentile becomes the request (and, when
    /// limits are controlled too, the limit keeps its ratio to the request). `None`
    /// when neither resource changes.
    pub fn get_recommendation(&self, pod: &Pod, pod_statistic: &PodStatistic) -> (r: Option<VPARecommendation>)
        requires
            pod_statistic.wf(),
            pod.wf(),
        ensures
            ({
                let c = self.resource_change(pod.requested_cpu, pod.limit_cpu, pod_statistic.cpu_distribution, pod_statistic.cpu_distribution.history_time_spec());
                let m = self.resource_change(pod.requested_memory, pod.limit_memory, pod_statistic.memory_distribution, pod_statistic.cpu_distribution.history_time_spec());
                if c.is_none() && m.is_none() {
                    r.is_none()
                } else {
                    r matches Some(rec) && rec.pod_id == pod.id
                        && rec.new_requested_cpu == (match c { Some((a, _)) => a, None => pod.requested_cpu as int })
                        && rec.new_limit_cpu == (match c { Some((_, b)) => b, None => pod.limit_cpu as int })
                        && rec.new_requested_memory == (match m { Some((a, _)) => a, None => pod.requested_memory as int })
                        && rec.new_limit_memory == (match m { Some((_, b)) => b, None => pod.limit_memory as int })
                }
            }),
    {
        let history = pod_statistic.cpu_distribution.history_time();
        let c = self.compute_change(pod.requested_cpu, pod.limit_cpu, &pod_statistic.cpu_distribution, history);
        let m = self.compute_change(pod.requested_memory, pod.limit_memory, &pod_statistic.memory_distribution, history);
        if c.is_none() && m.is_none() {
            return None;
        }
        let (new_requested_cpu, new_limit_cpu) = match c {
            Some(v) => v,
            None => (pod.requested_cpu, pod.limit_cpu),
        };
        let (new_requested_memory, new_limit_memory) = match m {
            Some(v) => v,
            None => (pod.requested_memory, pod.limit_memory),
        };
        Some(
            VPARecommendation {
                pod_id: pod.id,
                new_requested_cpu,
                new_limit_cpu,
                new_requested_memory,
                new_limit_memory,
            },
        )
    }

    /// Whether a recommendation is applied: this algorithm applies every one.
    pub fn try_to_apply_recommendation(&self, pod: &Pod, recommendation: &VPARecommendation) -> (r: bool)
        ensures
            r,
    {
        true
    }
}

} // verus!

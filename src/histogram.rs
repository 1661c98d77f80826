//! A fixed-bucket weighted distribution of resource samples with percentile queries.
use vstd::prelude::*;
use vstd::arithmetic::mul::lemma_mul_inequality;
use crate::load_model::MAX_RESOURCE;

verus! {

pub const NUM_BUCKETS: usize = 100;

/// Upper bound on the total weight a histogram can hold.
pub const MAX_WEIGHT: u64 = 1_125_899_906_842_624;

/// Sum of `w[lo..hi]`.
pub open spec fn sum_range(w: Seq<u64>, lo: int, hi: int) -> int
    decreases hi - lo,
{
    if hi <= lo {
        0
    } else {
        sum_range(w, lo, hi - 1) + w[hi - 1]
    }
}

pub proof fn lemma_sum_range_nonneg(w: Seq<u64>, lo: int, hi: int)
    ensures
        sum_range(w, lo, hi) >= 0,
    decreases hi - lo,
{
    if hi > lo {
        lemma_sum_range_nonneg(w, lo, hi - 1);
    }
}

proof fn lemma_sum_range_grows(w: Seq<u64>, lo: int, hi: int, hi2: int)
    requires
        lo <= hi <= hi2,
    ensures
        sum_range(w, lo, hi) <= sum_range(w, lo, hi2),
    decreases hi2 - hi,
{
    if hi < hi2 {
        lemma_sum_range_grows(w, lo, hi, hi2 - 1);
    }
}

proof fn lemma_sum_range_from_zero(w: Seq<u64>, lo: int, hi: int)
    requires
        0 <= lo,
    ensures
        sum_range(w, lo, hi) <= sum_range(w, 0, hi),
    decreases hi,
{
    if hi > lo {
        lemma_sum_range_from_zero(w, lo, hi - 1);
    } else {
        lemma_sum_range_nonneg(w, 0, hi);
    }
}

proof fn lemma_sum_range_update(w: Seq<u64>, lo: int, hi: int, i: int, v: u64)
    requires
        0 <= lo <= i < hi <= w.len(),
    ensures
        sum_range(w.update(i, v), lo, hi) == sum_range(w, lo, hi) + v - w[i],
    decreases hi - lo,
{
    if hi - 1 > i {
        lemma_sum_range_update(w, lo, hi - 1, i, v);
    } else {
        lemma_sum_range_same(w, w.update(i, v), lo, hi - 1);
    }
}

proof fn lemma_sum_range_same(w: Seq<u64>, w2: Seq<u64>, lo: int, hi: int)
    requires
        forall|k: int| lo <= k < hi ==> w[k] == w2[k],
    ensures
        sum_range(w, lo, hi) == sum_range(w2, lo, hi),
    decreases hi - lo,
{
    if hi > lo {
        lemma_sum_range_same(w, w2, lo, hi - 1);
    }
}

/// Whether the running weight `acc` reaches the fraction `q` (per mille) of `total`.
pub open spec fn reaches(acc: int, q: u64, total: u64) -> bool {
    acc * 1000 >= q * total
}

/// The bucket at which the ascending walk from `b`, carrying cumulative weight `acc`,
/// first reaches the fraction `q` of `total`; `hi` when it does not before `hi`.
pub open spec fn percentile_walk(w: Seq<u64>, hi: int, q: u64, total: u64, b: int, acc: int) -> int
    decreases hi - b,
{
    if b < hi && !reaches(acc + w[b], q, total) {
        percentile_walk(w, hi, q, total, b + 1, acc + w[b])
    } else {
        b
    }
}

proof fn lemma_walk_at_least(w: Seq<u64>, hi: int, q: u64, total: u64, b: int, acc: int)
    ensures
        b <= percentile_walk(w, hi, q, total, b, acc),
        b <= hi ==> percentile_walk(w, hi, q, total, b, acc) <= hi,
    decreases hi - b,
{
    if b < hi && !reaches(acc + w[b], q, total) {
        lemma_walk_at_least(w, hi, q, total, b + 1, acc + w[b]);
    }
}

proof fn lemma_walk_monotone(w: Seq<u64>, hi: int, q1: u64, q2: u64, total: u64, b: int, acc: int)
    requires
        q1 <= q2,
    ensures
        percentile_walk(w, hi, q1, total, b, acc) <= percentile_walk(w, hi, q2, total, b, acc),
    decreases hi - b,
{
    assert(q1 * total <= q2 * total) by (nonlinear_arith)
        requires
            q1 <= q2,
            0 <= total,
    ;
    lemma_walk_at_least(w, hi, q2, total, b, acc);
    if b < hi && !reaches(acc + w[b], q1, total) {
        lemma_walk_monotone(w, hi, q1, q2, total, b + 1, acc + w[b]);
    }
}

/// The bucket whose start a percentile query reports for the bucket found by the walk.
pub open spec fn reported_bucket(b: int) -> int {
    if b + 1 < NUM_BUCKETS {
        b + 1
    } else {
        b
    }
}

pub struct Histogram {
    pub bucket_weight: Vec<u64>,
    pub total_weight: u64,
    pub bucket_size: u64,
    pub min_bucket: usize,
    pub max_bucket: usize,
    pub start_time: u64,
    pub last_sample_time: u64,
    pub has_samples: bool,
}

impl Histogram {
    pub open spec fn weights(&self) -> Seq<u64> {
        self.bucket_weight@
    }

    pub open spec fn wf(&self) -> bool {
        &&& self.weights().len() == NUM_BUCKETS
        &&& self.total_weight == sum_range(self.weights(), 0, NUM_BUCKETS as int)
        &&& self.total_weight <= MAX_WEIGHT
        &&& 1 <= self.bucket_size <= MAX_RESOURCE / 100
        &&& self.min_bucket < NUM_BUCKETS
        &&& self.max_bucket < NUM_BUCKETS
        &&& forall|b: int| 0 <= b < self.min_bucket ==> self.weights()[b] == 0
        &&& forall|b: int| self.max_bucket < b < NUM_BUCKETS ==> self.weights()[b] == 0
        &&& self.has_samples ==> self.start_time <= self.last_sample_time
        &&& !self.has_samples ==> self.start_time == 0 && self.last_sample_time == 0
    }

    /// The width of each bucket for a histogram over `[0, max_value]`.
    pub open spec fn bucket_size_for(max_value: u64) -> int {
        if max_value / (NUM_BUCKETS as u64) == 0 {
            1
        } else {
            (max_value / (NUM_BUCKETS as u64)) as int
        }
    }

    /// The bucket a sample of `value` falls into.
    pub open spec fn bucket_of(&self, value: u64) -> int {
        if value / self.bucket_size >= NUM_BUCKETS {
            NUM_BUCKETS - 1
        } else {
            (value / self.bucket_size) as int
        }
    }

    pub open spec fn bucket_start(&self, b: int) -> int {
        self.bucket_size * b
    }

    pub open spec fn history_time_spec(&self) -> u64 {
        (self.last_sample_time - self.start_time) as u64
    }

    pub open spec fn is_empty(&self) -> bool {
        self.weights()[self.max_bucket as int] == 0
    }

    /// The value reported for fraction `q` (per mille) of the total weight.
    pub open spec fn percentile_spec(&self, q: u64) -> int {
        if self.is_empty() {
            -1
        } else {
            self.bucket_start(
                reported_bucket(
                    percentile_walk(
                        self.weights(),
                        self.max_bucket as int,
                        q,
                        self.total_weight,
                        self.min_bucket as int,
                        0,
                    ),
                ),
            )
        }
    }

    pub fn new(max_value: u64) -> (r: Self)
        requires
            max_value <= MAX_RESOURCE,
        ensures
            r.wf(),
            r.total_weight == 0,
            r.bucket_size == Self::bucket_size_for(max_value),
            forall|b: int| 0 <= b < NUM_BUCKETS ==> r.weights()[b] == 0,
            !r.has_samples,
    {
        let mut bucket_weight: Vec<u64> = Vec::new();
        let mut i: usize = 0;
        while i < NUM_BUCKETS
            invariant
                i <= NUM_BUCKETS,
                bucket_weight@.len() == i,
                forall|b: int| 0 <= b < i ==> bucket_weight@[b] == 0,
                sum_range(bucket_weight@, 0, i as int) == 0,
            decreases NUM_BUCKETS - i,
        {
            let ghost before = bucket_weight@;
            bucket_weight.push(0);
            proof {
                lemma_sum_range_same(before, bucket_weight@, 0, i as int);
                assert(sum_range(bucket_weight@, 0, i as int + 1) == sum_range(
                    bucket_weight@,
                    0,
                    i as int,
                ) + bucket_weight@[i as int]);
            }
            i += 1;
        }
        proof {
            vstd::arithmetic::div_mod::lemma_div_is_ordered(
                max_value as int,
                MAX_RESOURCE as int,
                NUM_BUCKETS as int,
            );
        }
        let mut bucket_size = max_value / (NUM_BUCKETS as u64);
        if bucket_size == 0 {
            bucket_size = 1;
        }
        Self {
            bucket_weight,
            total_weight: 0,
            bucket_size,
            min_bucket: NUM_BUCKETS - 1,
            max_bucket: 0,
            start_time: 0,
            last_sample_time: 0,
            has_samples: false,
        }
    }

    fn get_bucket_start(&self, bucket: usize) -> (r: i64)
        requires
            self.wf(),
            bucket < NUM_BUCKETS,
        ensures
            r == self.bucket_start(bucket as int),
            r >= 0,
    {
        assert(self.bucket_size * bucket <= MAX_RESOURCE * NUM_BUCKETS) by (nonlinear_arith)
            requires
                self.bucket_size <= MAX_RESOURCE,
                bucket < NUM_BUCKETS,
        ;
        (self.bucket_size * (bucket as u64)) as i64
    }

    /// Start of the lowest non-empty bucket, or -1 when that bucket holds no weight.
    pub fn min(&self) -> (r: i64)
        requires
            self.wf(),
        ensures
            self.weights()[self.min_bucket as int] == 0 ==> r == -1,
            self.weights()[self.min_bucket as int] != 0 ==> r == self.bucket_start(
                self.min_bucket as int,
            ),
            r >= 0 ==> forall|b: int| 0 <= b < self.min_bucket ==> self.weights()[b] == 0,
    {
        if self.bucket_weight[self.min_bucket] == 0 {
            -1
        } else {
            self.get_bucket_start(self.min_bucket)
        }
    }

    /// Start of the highest non-empty bucket, or -1 when the histogram is empty.
    pub fn max(&self) -> (r: i64)
        requires
            self.wf(),
        ensures
            self.is_empty() ==> r == -1,
            !self.is_empty() ==> r == self.bucket_start(self.max_bucket as int),
            r >= 0 ==> forall|b: int|
                self.max_bucket < b < NUM_BUCKETS ==> self.weights()[b] == 0,
    {
        if self.bucket_weight[self.max_bucket] == 0 {
            -1
        } else {
            self.get_bucket_start(self.max_bucket)
        }
    }

    /// The start of the bucket after the first one at which the cumulative weight
    /// reaches `percentile` per mille of the total (or -1 when empty).
    pub fn percentile(&self, percentile: u64) -> (r: i64)
        requires
            self.wf(),
            percentile <= 1000,
        ensures
            r == self.percentile_spec(percentile),
    {
        if self.bucket_weight[self.max_bucket] == 0 {
            return -1;
        }
        let ghost w = self.weights();
        let mut partial_sum: u64 = 0;
        let mut bucket = self.min_bucket;
        proof {
            if self.min_bucket > self.max_bucket {
                assert(w[self.max_bucket as int] == 0);
            }
            lemma_sum_range_from_zero(w, self.min_bucket as int, bucket as int + 1);
            lemma_sum_range_grows(w, 0, bucket as int + 1, NUM_BUCKETS as int);
            assert(sum_range(w, bucket as int, bucket as int) == 0);
            assert(sum_range(w, bucket as int, bucket as int + 1) == w[bucket as int]);
        }
        assert(percentile * self.total_weight <= 1000 * MAX_WEIGHT) by (nonlinear_arith)
            requires
                percentile <= 1000,
                self.total_weight <= MAX_WEIGHT,
        ;
        while bucket < self.max_bucket && !((partial_sum + self.bucket_weight[bucket]) * 1000
            >= percentile * self.total_weight)
            invariant
                self.wf(),
                w == self.weights(),
                percentile <= 1000,
                self.min_bucket <= bucket <= self.max_bucket,
                partial_sum == sum_range(w, self.min_bucket as int, bucket as int),
                partial_sum + w[bucket as int] <= self.total_weight,
                percentile * self.total_weight <= 1000 * MAX_WEIGHT,
                percentile_walk(
                    w,
                    self.max_bucket as int,
                    percentile,
                    self.total_weight,
                    self.min_bucket as int,
                    0,
                ) == percentile_walk(
                    w,
                    self.max_bucket as int,
                    percentile,
                    self.total_weight,
                    bucket as int,
                    partial_sum as int,
                ),
            decreases self.max_bucket - bucket,
        {
            partial_sum += self.bucket_weight[bucket];
            bucket += 1;
            proof {
                lemma_sum_range_from_zero(w, self.min_bucket as int, bucket as int + 1);
                lemma_sum_range_grows(w, 0, bucket as int + 1, NUM_BUCKETS as int);
                assert(sum_range(w, self.min_bucket as int, bucket as int + 1) == sum_range(
                    w,
                    self.min_bucket as int,
                    bucket as int,
                ) + w[bucket as int]);
            }
        }
        if bucket + 1 < NUM_BUCKETS {
            self.get_bucket_start(bucket + 1)
        } else {
            self.get_bucket_start(bucket)
        }
    }

    fn find_bucket(&self, value: u64) -> (r: usize)
        requires
            self.wf(),
        ensures
            r == self.bucket_of(value),
            r < NUM_BUCKETS,
    {
        let bucket = value / self.bucket_size;
        if bucket >= NUM_BUCKETS as u64 {
            NUM_BUCKETS - 1
        } else {
            bucket as usize
        }
    }

    /// Adds `weight` to the bucket of `value`, and widens the sampling window to `time`.
    pub fn add_sample(&mut self, value: u64, weight: u64, time: u64)
        requires
            old(self).wf(),
            old(self).total_weight + weight <= MAX_WEIGHT,
        ensures
            final(self).wf(),
            final(self).bucket_size == old(self).bucket_size,
            final(self).total_weight == old(self).total_weight + weight,
            final(self).weights() == old(self).weights().update(
                old(self).bucket_of(value),
                (old(self).weights()[old(self).bucket_of(value)] + weight) as u64,
            ),
            final(self).has_samples,
            final(self).start_time == (if old(self).has_samples {
                old(self).start_time
            } else {
                time
            }),
            final(self).last_sample_time == (if old(self).last_sample_time >= time {
                old(self).last_sample_time
            } else {
                time
            }),
    {
        let bucket = self.find_bucket(value);
        let ghost w = self.weights();
        proof {
            lemma_sum_range_from_zero(w, bucket as int, bucket as int + 1);
            lemma_sum_range_grows(w, 0, bucket as int + 1, NUM_BUCKETS as int);
            assert(sum_range(w, bucket as int, bucket as int) == 0);
            assert(sum_range(w, bucket as int, bucket as int + 1) == w[bucket as int]);
            lemma_sum_range_update(w, 0, NUM_BUCKETS as int, bucket as int, (w[bucket as int] + weight) as u64);
        }
        let nw = self.bucket_weight[bucket] + weight;
        self.bucket_weight.set(bucket, nw);
        self.total_weight = self.total_weight + weight;
        if bucket < self.min_bucket {
            self.min_bucket = bucket;
        }
        if bucket > self.max_bucket {
            self.max_bucket = bucket;
        }
        if !self.has_samples {
            self.start_time = time;
            self.has_samples = true;
        }
        if time > self.last_sample_time {
            self.last_sample_time = time;
        }
    }

    /// Length of the sampling window: last sample time minus first sample time.
    pub fn history_time(&self) -> (r: u64)
        requires
            self.wf(),
        ensures
            r == self.last_sample_time - self.start_time,
            r == self.history_time_spec(),
    {
        self.last_sample_time - self.start_time
    }
}

/// Two percentile queries on one histogram are ordered as their fractions are.
pub proof fn lemma_percentile_monotone(h: Histogram, q1: u64, q2: u64)
    requires
        h.wf(),
        q1 <= q2 <= 1000,
    ensures
        h.percentile_spec(q1) <= h.percentile_spec(q2),
{
    if !h.is_empty() {
        let w = h.weights();
        let hi = h.max_bucket as int;
        let lo = h.min_bucket as int;
        lemma_walk_monotone(w, hi, q1, q2, h.total_weight, lo, 0);
        let b1 = percentile_walk(w, hi, q1, h.total_weight, lo, 0);
        let b2 = percentile_walk(w, hi, q2, h.total_weight, lo, 0);
        assert(reported_bucket(b1) <= reported_bucket(b2));
        lemma_mul_inequality(reported_bucket(b1), reported_bucket(b2), h.bucket_size as int);
        assert(h.bucket_size * reported_bucket(b1) == reported_bucket(b1) * h.bucket_size);
        assert(h.bucket_size * reported_bucket(b2) == reported_bucket(b2) * h.bucket_size);
    }
}

/// The total weight of a histogram is the sum of its bucket weights.
pub proof fn lemma_total_is_sum_of_buckets(h: Histogram)
    requires
        h.wf(),
    ensures
        h.total_weight == sum_range(h.weights(), 0, NUM_BUCKETS as int),
{
}

} // verus!

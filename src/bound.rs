//! Threshold predicates on metric readings.
//!
//! Readings, limits and histogram bucket bounds are fixed-point integers: the
//! caller picks one unit (for example millionths) and uses it for readings and
//! limits alike. Instants and periods are counted in microseconds.
use vstd::prelude::*;

verus! {

/// One bucket of a histogram: the cumulative count of observations that were
/// at most `less_than`.
#[derive(Clone, Copy, Debug, PartialEq, Eq, Structural)]
pub struct HistogramCount {
    pub less_than: i64,
    pub count: i64,
}

/// The value carried by one sample of a scrape.
#[derive(Clone, Debug)]
pub enum MetricValue {
    Counter(i64),
    Gauge(i64),
    /// Buckets ordered by ascending upper bound.
    Histogram(Vec<HistogramCount>),
    Summary,
    Untyped(i64),
}

/// The mathematical reading of a `MetricValue`.
pub ghost enum Reading {
    Counter(int),
    Gauge(int),
    Histogram(Seq<HistogramCount>),
    Summary,
    Untyped(int),
}

impl View for MetricValue {
    type V = Reading;

    open spec fn view(&self) -> Reading {
        match self {
            MetricValue::Counter(n) => Reading::Counter(*n as int),
            MetricValue::Gauge(n) => Reading::Gauge(*n as int),
            MetricValue::Histogram(h) => Reading::Histogram(h@),
            MetricValue::Summary => Reading::Summary,
            MetricValue::Untyped(n) => Reading::Untyped(*n as int),
        }
    }
}

/// The scalar of a counter or a gauge; nothing for other readings.
pub open spec fn scalar_of(r: Reading) -> Option<int> {
    match r {
        Reading::Counter(n) => Some(n),
        Reading::Gauge(n) => Some(n),
        _ => None,
    }
}

/// Some bucket with a nonzero count has an upper bound below `limit`.
pub open spec fn mass_below(h: Seq<HistogramCount>, limit: int) -> bool {
    exists|i: int| 0 <= i < h.len() && h[i].less_than < limit && h[i].count > 0
}

/// Some bucket with a nonzero count has an upper bound above `limit`.
pub open spec fn mass_above(h: Seq<HistogramCount>, limit: int) -> bool {
    exists|i: int| 0 <= i < h.len() && h[i].less_than > limit && h[i].count > 0
}

/// `increment / elapsed > limit / period`, for a positive `elapsed`.
/// A period of zero makes the threshold infinite with the sign of `limit`.
pub open spec fn rate_above(increment: int, elapsed: int, limit: int, period: int) -> bool {
    if period >= 0 {
        increment * period > limit * elapsed
    } else {
        increment * period < limit * elapsed
    }
}

/// `increment / elapsed < limit / period`, for a positive `elapsed`.
pub open spec fn rate_below(increment: int, elapsed: int, limit: int, period: int) -> bool {
    if period >= 0 {
        increment * period < limit * elapsed
    } else {
        increment * period > limit * elapsed
    }
}

/// Bounds that classify metric readings as anomalous.
#[derive(Clone, Copy, Debug, PartialEq, Eq, Structural)]
pub enum Bound {
    /// Triggers on readings below the limit.
    AbsLower(i64),
    /// Triggers on readings above the limit.
    AbsUpper(i64),
    /// Triggers when the observed rate falls below `min_increment` per `time_period`.
    RateLower { min_increment: i64, time_period: i64 },
    /// Triggers when the observed rate exceeds `max_increment` per `time_period`.
    RateUpper { max_increment: i64, time_period: i64 },
}

impl Bound {
    /// The rate bounds, which compare against an earlier sample.
    pub open spec fn relative(self) -> bool {
        self is RateLower || self is RateUpper
    }

    /// Increment and elapsed time between the earlier and the current
    /// reading, when both are counters or gauges and the earlier time is known.
    pub open spec fn diffs(
        value: Reading,
        time: int,
        old_value: Option<Reading>,
        old_time: Option<int>,
    ) -> Option<(int, int)> {
        match (scalar_of(value), old_value, old_time) {
            (Some(n), Some(ov), Some(t0)) => match scalar_of(ov) {
                Some(o) => Some((n - o, time - t0)),
                None => None,
            },
            _ => None,
        }
    }

    /// Whether this bound triggers on `value` observed at `time`, given the
    /// earlier reading and its time where known. A rate bound needs counters
    /// or gauges on both sides and an earlier time strictly before `time`;
    /// without them it does not trigger, as absent information is no anomaly.
    pub open spec fn triggers(
        self,
        value: Reading,
        time: int,
        old_value: Option<Reading>,
        old_time: Option<int>,
    ) -> bool {
        match self {
            Bound::AbsLower(limit) => match value {
                Reading::Gauge(n) => n < limit,
                Reading::Histogram(h) => mass_below(h, limit as int),
                _ => false,
            },
            Bound::AbsUpper(limit) => match value {
                Reading::Counter(n) => n > limit,
                Reading::Gauge(n) => n > limit,
                Reading::Histogram(h) => mass_above(h, limit as int),
                _ => false,
            },
            Bound::RateLower { min_increment, time_period } => match Self::diffs(
                value,
                time,
                old_value,
                old_time,
            ) {
                Some((inc, dur)) => dur > 0 && rate_below(
                    inc,
                    dur,
                    min_increment as int,
                    time_period as int,
                ),
                None => false,
            },
            Bound::RateUpper { max_increment, time_period } => match Self::diffs(
                value,
                time,
                old_value,
                old_time,
            ) {
                Some((inc, dur)) => dur > 0 && rate_above(
                    inc,
                    dur,
                    max_increment as int,
                    time_period as int,
                ),
                None => false,
            },
        }
    }

    pub fn is_relative(&self) -> (r: bool)
        ensures
            r == self.relative(),
    {
        match self {
            Bound::AbsLower(_) | Bound::AbsUpper(_) => false,
            Bound::RateLower { .. } | Bound::RateUpper { .. } => true,
        }
    }

    /// Checks `value`, observed at `time` (microseconds), against this bound.
    pub fn check(
        &self,
        value: &MetricValue,
        time: i64,
        old_value: Option<&MetricValue>,
        old_time: Option<i64>,
    ) -> (r: bool)
        ensures
            r == self.triggers(
                value@,
                time as int,
                match old_value {
                    Some(v) => Some(v@),
                    None => None,
                },
                match old_time {
                    Some(t) => Some(t as int),
                    None => None,
                },
            ),
    {
        match self {
            Bound::AbsLower(limit) => match value {
                MetricValue::Gauge(n) => *n < *limit,
                MetricValue::Histogram(h) => any_bucket_below(h, *limit),
                _ => false,
            },
            Bound::AbsUpper(limit) => match value {
                MetricValue::Counter(n) | MetricValue::Gauge(n) => *n > *limit,
                MetricValue::Histogram(h) => any_bucket_above(h, *limit),
                _ => false,
            },
            Bound::RateLower { min_increment, time_period } => {
                match scaled_diffs(value, time, old_value, old_time, *min_increment, *time_period) {
                    Some((lhs, rhs)) => {
                        if *time_period >= 0 {
                            lhs < rhs
                        } else {
                            lhs > rhs
                        }
                    },
                    None => false,
                }
            },
            Bound::RateUpper { max_increment, time_period } => {
                match scaled_diffs(value, time, old_value, old_time, *max_increment, *time_period) {
                    Some((lhs, rhs)) => {
                        if *time_period >= 0 {
                            lhs > rhs
                        } else {
                            lhs < rhs
                        }
                    },
                    None => false,
                }
            },
        }
    }
}

fn scalar(value: &MetricValue) -> (r: Option<i64>)
    ensures
        match r {
            Some(n) => scalar_of(value@) == Some(n as int),
            None => scalar_of(value@) is None,
        },
{
    match value {
        MetricValue::Counter(n) | MetricValue::Gauge(n) => Some(*n),
        _ => None,
    }
}

/// For a positive elapsed time, the two sides of the cross-multiplied rate
/// comparison: `increment * period` and `limit * elapsed`.
fn scaled_diffs(
    value: &MetricValue,
    time: i64,
    old_value: Option<&MetricValue>,
    old_time: Option<i64>,
    limit: i64,
    period: i64,
) -> (r: Option<(i128, i128)>)
    ensures
        match r {
            Some((lhs, rhs)) => {
                let d = Bound::diffs(
                    value@,
                    time as int,
                    match old_value {
                        Some(v) => Some(v@),
                        None => None,
                    },
                    match old_time {
                        Some(t) => Some(t as int),
                        None => None,
                    },
                );
                &&& d is Some
                &&& d.unwrap().1 > 0
                &&& lhs == d.unwrap().0 * period
                &&& rhs == limit * d.unwrap().1
            },
            None => {
                let d = Bound::diffs(
                    value@,
                    time as int,
                    match old_value {
                        Some(v) => Some(v@),
                        None => None,
                    },
                    match old_time {
                        Some(t) => Some(t as int),
                        None => None,
                    },
                );
                d is None || d.unwrap().1 <= 0
            },
        },
{
    let num = match scalar(value) {
        Some(n) => n,
        None => return None,
    };
    let old_num = match old_value {
        Some(v) => match scalar(v) {
            Some(n) => n,
            None => return None,
        },
        None => return None,
    };
    let t0 = match old_time {
        Some(t) => t,
        None => return None,
    };
    let elapsed: i128 = time as i128 - t0 as i128;
    if elapsed <= 0 {
        return None;
    }
    let increment: i128 = num as i128 - old_num as i128;
    let p: i128 = period as i128;
    let l: i128 = limit as i128;
    assert(-0x1_0000_0000_0000_0000 < increment < 0x1_0000_0000_0000_0000);
    assert(0 < elapsed < 0x1_0000_0000_0000_0000);
    assert(-0x8000_0000_0000_0000 <= p < 0x8000_0000_0000_0000);
    assert(-0x8000_0000_0000_0000 <= l < 0x8000_0000_0000_0000);
    proof {
        lemma_product_fits(increment as int, p as int);
        lemma_product_fits(elapsed as int, l as int);
    }
    Some((increment * p, l * elapsed))
}

proof fn lemma_product_fits(a: int, b: int)
    requires
        -0x1_0000_0000_0000_0000 < a < 0x1_0000_0000_0000_0000,
        -0x8000_0000_0000_0000 <= b < 0x8000_0000_0000_0000,
    ensures
        -0x8000_0000_0000_0000_0000_0000_0000_0000 < a * b < 0x8000_0000_0000_0000_0000_0000_0000_0000,
{
    let ua: int = if a >= 0 { a } else { -a };
    let ub: int = if b >= 0 { b } else { -b };
    assert(ua * ub <= 0xffff_ffff_ffff_ffff * 0x8000_0000_0000_0000) by (nonlinear_arith)
        requires
            0 <= ua <= 0xffff_ffff_ffff_ffff,
            0 <= ub <= 0x8000_0000_0000_0000,
    ;
    assert(a * b == ua * ub || a * b == -(ua * ub)) by (nonlinear_arith)
        requires
            ua == a || ua == -a,
            ub == b || ub == -b,
    ;
}

fn any_bucket_below(h: &Vec<HistogramCount>, limit: i64) -> (r: bool)
    ensures
        r == mass_below(h@, limit as int),
{
    let mut i: usize = 0;
    while i < h.len()
        invariant
            i <= h@.len(),
            forall|j: int| 0 <= j < i ==> !(h@[j].less_than < limit && h@[j].count > 0),
        decreases h@.len() - i,
    {
        if h[i].less_than < limit && h[i].count > 0 {
            return true;
        }
        i += 1;
    }
    false
}

fn any_bucket_above(h: &Vec<HistogramCount>, limit: i64) -> (r: bool)
    ensures
        r == mass_above(h@, limit as int),
{
    let mut i: usize = 0;
    while i < h.len()
        invariant
            i <= h@.len(),
            forall|j: int| 0 <= j < i ==> !(h@[j].less_than > limit && h@[j].count > 0),
        decreases h@.len() - i,
    {
        if h[i].less_than > limit && h[i].count > 0 {
            return true;
        }
        i += 1;
    }
    false
}

impl MetricValue {
    /// A copy of this value with the same reading.
    pub fn duplicate(&self) -> (r: MetricValue)
        ensures
            r@ == self@,
    {
        match self {
            MetricValue::Counter(n) => MetricValue::Counter(*n),
            MetricValue::Gauge(n) => MetricValue::Gauge(*n),
            MetricValue::Histogram(h) => {
                let mut out: Vec<HistogramCount> = Vec::new();
                let mut i: usize = 0;
                while i < h.len()
                    invariant
                        i <= h@.len(),
                        out@ == h@.subrange(0, i as int),
                    decreases h@.len() - i,
                {
                    out.push(h[i]);
                    i += 1;
                }
                assert(out@ == h@);
                MetricValue::Histogram(out)
            },
            MetricValue::Summary => MetricValue::Summary,
            MetricValue::Untyped(n) => MetricValue::Untyped(*n),
        }
    }
}

/// A counter never triggers a lower absolute bound, whatever its value and
/// the limit: counters only grow, so "too low" means nothing for them.
pub proof fn lemma_counter_never_below(
    limit: i64,
    n: int,
    time: int,
    old_value: Option<Reading>,
    old_time: Option<int>,
)
    ensures
        !Bound::AbsLower(limit).triggers(Reading::Counter(n), time, old_value, old_time),
{
}

/// A rate bound never triggers on a reading that is neither a counter nor a
/// gauge, whatever the earlier reading and the times.
pub proof fn lemma_rate_needs_scalar(
    b: Bound,
    value: Reading,
    time: int,
    old_value: Option<Reading>,
    old_time: Option<int>,
)
    requires
        b.relative(),
        !(value is Counter || value is Gauge),
    ensures
        !b.triggers(value, time, old_value, old_time),
{
}

/// A rate bound compared with the very sample it looks at (the baseline of a
/// metric seen for the first time) never triggers: no time has passed.
pub proof fn lemma_rate_against_itself_is_quiet(b: Bound, value: Reading, time: int)
    requires
        b.relative(),
    ensures
        !b.triggers(value, time, Some(value), Some(time)),
{
}

} // verus!

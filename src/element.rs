//! Monitoring of one Prometheus-compatible endpoint: the bounds that apply to
//! each metric, and the last sample seen of each metric that a rate bound
//! compares against.
use vstd::prelude::*;

use crate::bound::{Bound, MetricValue, Reading};
use crate::endpoint::{endpoint_url, url_usable};
use crate::error::AgentError;
use crate::table::KeyedTable;

verus! {

/// One sample of a scrape; `timestamp` is in microseconds. The labels are
/// carried along for the caller and play no part in the checks.
#[derive(Clone, Debug)]
pub struct Sample {
    pub metric: String,
    pub value: MetricValue,
    pub labels: Vec<(String, String)>,
    pub timestamp: i64,
}

/// Describes which bound applies to which metric.
#[derive(Clone, Debug, PartialEq)]
pub enum Filter {
    Exact { metric_name: String, trigger: Bound },
}

/// What a rate bound remembers of a sample: its value and time.
struct Seen {
    value: MetricValue,
    timestamp: i64,
}

impl View for Seen {
    type V = (Reading, int);

    closed spec fn view(&self) -> (Reading, int) {
        (self.value@, self.timestamp as int)
    }
}

/// The entry of `m` under `k`, if any.
pub open spec fn lookup<V>(m: Map<Seq<char>, V>, k: Seq<char>) -> Option<V> {
    if m.contains_key(k) {
        Some(m[k])
    } else {
        None
    }
}

/// The bounds of each metric, in the order in which the filters name them.
pub open spec fn group(fs: Seq<Filter>) -> Map<Seq<char>, Seq<Bound>>
    decreases fs.len(),
{
    if fs.len() == 0 {
        Map::empty()
    } else {
        let m = group(fs.drop_last());
        match fs.last() {
            Filter::Exact { metric_name, trigger } => m.insert(
                metric_name@,
                match lookup(m, metric_name@) {
                    Some(bs) => bs.push(trigger),
                    None => seq![trigger],
                },
            ),
        }
    }
}

/// Applies the bounds `bs` in order to `value` observed at `time`, until one
/// triggers. `prev` is the remembered reading and time of the metric. A rate
/// bound compares against `prev`, or against the current sample itself when
/// nothing is remembered, and afterwards remembers the current sample.
/// Returns whether a bound triggered, and what is remembered afterwards.
pub open spec fn eval_bounds(bs: Seq<Bound>, value: Reading, time: int, prev: Option<(Reading, int)>) -> (
    bool,
    Option<(Reading, int)>,
)
    decreases bs.len(),
{
    if bs.len() == 0 {
        (false, prev)
    } else {
        let b = bs[0];
        let rest = bs.subrange(1, bs.len() as int);
        if b.relative() {
            let base = match prev {
                Some(p) => p,
                None => (value, time),
            };
            if b.triggers(value, time, Some(base.0), Some(base.1)) {
                (true, Some((value, time)))
            } else {
                eval_bounds(rest, value, time, Some((value, time)))
            }
        } else if b.triggers(value, time, None, None) {
            (true, prev)
        } else {
            eval_bounds(rest, value, time, prev)
        }
    }
}

/// `m` with the entry under `k` set to `p`, where `p` is present.
pub open spec fn remember(m: Map<Seq<char>, (Reading, int)>, k: Seq<char>, p: Option<(Reading, int)>) -> Map<
    Seq<char>,
    (Reading, int),
> {
    match p {
        Some(q) => m.insert(k, q),
        None => m,
    }
}

/// Whether sample `s` is reported, and the remembered samples afterwards.
pub open spec fn sample_step(
    bounds: Map<Seq<char>, Seq<Bound>>,
    seen: Map<Seq<char>, (Reading, int)>,
    s: Sample,
) -> (bool, Map<Seq<char>, (Reading, int)>) {
    if bounds.contains_key(s.metric@) {
        let r = eval_bounds(bounds[s.metric@], s.value@, s.timestamp as int, lookup(seen, s.metric@));
        (r.0, remember(seen, s.metric@, r.1))
    } else {
        (false, seen)
    }
}

/// The samples of the scrape `ss` that are reported, in scrape order, and
/// the remembered samples after the whole scrape.
pub open spec fn run(
    bounds: Map<Seq<char>, Seq<Bound>>,
    seen: Map<Seq<char>, (Reading, int)>,
    ss: Seq<Sample>,
) -> (Seq<Sample>, Map<Seq<char>, (Reading, int)>)
    decreases ss.len(),
{
    if ss.len() == 0 {
        (Seq::empty(), seen)
    } else {
        let before = run(bounds, seen, ss.drop_last());
        let step = sample_step(bounds, before.1, ss.last());
        (
            if step.0 {
                before.0.push(ss.last())
            } else {
                before.0
            },
            step.1,
        )
    }
}

/// Runs the bounds `bs` of the metric of `s` against it, reading and updating
/// the remembered samples as `eval_bounds` describes.
fn eval_sample_bounds(bs: &Vec<Bound>, s: &Sample, state: &mut KeyedTable<Seen>) -> (keep: bool)
    requires
        old(state).wf(),
    ensures
        final(state).wf(),
        ({
            let r = eval_bounds(bs@, s.value@, s.timestamp as int, lookup(old(state).model(), s.metric@));
            keep == r.0 && final(state).model() == remember(old(state).model(), s.metric@, r.1)
        }),
{
    let ghost k = s.metric@;
    let ghost st0 = state.model();
    let ghost v = s.value@;
    let ghost t = s.timestamp as int;
    let ghost n = bs@.len() as int;
    let mut i: usize = 0;
    assert(bs@.subrange(0, n) =~= bs@);
    while i < bs.len()
        invariant
            state.wf(),
            i <= bs@.len(),
            n == bs@.len(),
            k == s.metric@,
            st0 == old(state).model(),
            v == s.value@,
            t == s.timestamp as int,
            eval_bounds(bs@, v, t, lookup(st0, k)) == eval_bounds(
                bs@.subrange(i as int, n),
                v,
                t,
                lookup(state.model(), k),
            ),
            state.model().remove(k) == st0.remove(k),
            st0.contains_key(k) ==> state.model().contains_key(k),
        decreases bs@.len() - i,
    {
        let b = bs[i];
        assert(bs@.subrange(i as int, n).subrange(1, n - i) =~= bs@.subrange(i + 1, n));
        assert(bs@.subrange(i as int, n)[0] == b);
        if b.is_relative() {
            let res = match state.get(&s.metric) {
                Some(prev) => b.check(&s.value, s.timestamp, Some(&prev.value), Some(prev.timestamp)),
                None => b.check(&s.value, s.timestamp, Some(&s.value), Some(s.timestamp)),
            };
            let ghost before = state.model();
            let seen = Seen { value: s.value.duplicate(), timestamp: s.timestamp };
            state.insert(s.metric.clone(), seen);
            assert(state.model().remove(k) =~= before.remove(k));
            if res {
                proof {
                    lemma_remember_current(st0, state.model(), k);
                }
                return true;
            }
        } else {
            if b.check(&s.value, s.timestamp, None, None) {
                proof {
                    lemma_remember_current(st0, state.model(), k);
                }
                return true;
            }
        }
        i += 1;
    }
    proof {
        lemma_remember_current(st0, state.model(), k);
    }
    false
}

/// A map that differs from `st0` only under `k`, and keeps an entry there
/// where `st0` had one, is `st0` with its own entry under `k` remembered.
proof fn lemma_remember_current(st0: Map<Seq<char>, (Reading, int)>, cur: Map<Seq<char>, (Reading, int)>, k: Seq<char>)
    requires
        cur.remove(k) == st0.remove(k),
        st0.contains_key(k) ==> cur.contains_key(k),
    ensures
        remember(st0, k, lookup(cur, k)) == cur,
{
    if cur.contains_key(k) {
        assert forall|x: Seq<char>| #[trigger] cur.contains_key(x) == st0.insert(k, cur[k]).contains_key(x) by {
            if x != k {
                assert(cur.remove(k).contains_key(x) == cur.contains_key(x));
                assert(st0.remove(k).contains_key(x) == st0.contains_key(x));
            }
        }
        assert forall|x: Seq<char>| #[trigger] cur.contains_key(x) implies cur[x] == st0.insert(k, cur[k])[x] by {
            if x != k {
                assert(cur.remove(k)[x] == cur[x]);
                assert(st0.remove(k).contains_key(x));
            }
        }
        assert(st0.insert(k, cur[k]) =~= cur);
    } else {
        assert forall|x: Seq<char>| #[trigger] cur.contains_key(x) == st0.contains_key(x) by {
            if x != k {
                assert(cur.remove(k).contains_key(x) == cur.contains_key(x));
                assert(st0.remove(k).contains_key(x) == st0.contains_key(x));
            }
        }
        assert forall|x: Seq<char>| #[trigger] cur.contains_key(x) implies cur[x] == st0[x] by {
            assert(cur.remove(k)[x] == cur[x]);
        }
        assert(st0 =~= cur);
    }
}

/// A copy of a list of bounds.
fn copy_bounds(bs: &Vec<Bound>) -> (r: Vec<Bound>)
    ensures
        r@ == bs@,
{
    let mut out: Vec<Bound> = Vec::new();
    let mut i: usize = 0;
    while i < bs.len()
        invariant
            i <= bs@.len(),
            out@ == bs@.subrange(0, i as int),
        decreases bs@.len() - i,
    {
        out.push(bs[i]);
        i += 1;
    }
    assert(out@ =~= bs@);
    out
}

/// A checker of one Prometheus endpoint: it reports the samples of a scrape
/// that its filters find anomalous.
pub struct ElementHealth {
    /// the prometheus-exporting endpoint to query
    url: reqwest::Url,
    /// the bounds of each metric
    filter_set: KeyedTable<Vec<Bound>>,
    /// the last sample of each metric that a rate bound looked at
    relative_state: KeyedTable<Seen>,
}

impl ElementHealth {
    pub closed spec fn wf(&self) -> bool {
        self.filter_set.wf() && self.relative_state.wf()
    }

    /// The address of the endpoint.
    pub closed spec fn endpoint(&self) -> reqwest::Url {
        self.url
    }

    /// The bounds of each metric, in the order in which the filters named them.
    pub closed spec fn bounds_map(&self) -> Map<Seq<char>, Seq<Bound>> {
        self.filter_set.model()
    }

    /// The reading and time of the last sample of each metric that a rate
    /// bound looked at.
    pub closed spec fn last_seen(&self) -> Map<Seq<char>, (Reading, int)> {
        self.relative_state.model()
    }

    /// A checker of the endpoint at `url` with the given filters; fails
    /// exactly when `url` is not a usable address.
    pub fn new(url: &str, filter_set: Vec<Filter>) -> (r: Result<ElementHealth, AgentError>)
        ensures
            match r {
                Ok(e) => {
                    &&& e.wf()
                    &&& e.bounds_map() == group(filter_set@)
                    &&& e.last_seen() == Map::<Seq<char>, (Reading, int)>::empty()
                },
                Err(err) => err is InvalidUrl && err->InvalidUrl_0@ == url@,
            },
            r is Ok <==> url_usable(url@),
    {
        let url = match endpoint_url(url) {
            Ok(u) => u,
            Err(e) => return Err(e),
        };
        let mut table: KeyedTable<Vec<Bound>> = KeyedTable::new();
        let mut i: usize = 0;
        while i < filter_set.len()
            invariant
                table.wf(),
                i <= filter_set@.len(),
                table.model() == group(filter_set@.subrange(0, i as int)),
            decreases filter_set@.len() - i,
        {
            assert(filter_set@.subrange(0, i + 1).drop_last() =~= filter_set@.subrange(0, i as int));
            match &filter_set[i] {
                Filter::Exact { metric_name, trigger } => {
                    let mut bs = match table.get(metric_name) {
                        Some(existing) => copy_bounds(existing),
                        None => Vec::new(),
                    };
                    bs.push(*trigger);
                    proof {
                        if !table.model().contains_key(metric_name@) {
                            assert(bs@ =~= seq![*trigger]);
                        }
                    }
                    table.insert(metric_name.clone(), bs);
                },
            }
            i += 1;
        }
        assert(filter_set@.subrange(0, filter_set@.len() as int) =~= filter_set@);
        Ok(ElementHealth { url, filter_set: table, relative_state: KeyedTable::new() })
    }

    /// The address of the endpoint.
    pub fn url(&self) -> (r: &reqwest::Url)
        ensures
            *r == self.endpoint(),
    {
        &self.url
    }

    /// Whether sample `s` is reported; remembers it for the rate bounds that
    /// looked at it.
    fn check_sample(&mut self, s: &Sample) -> (keep: bool)
        requires
            old(self).wf(),
        ensures
            final(self).wf(),
            final(self).endpoint() == old(self).endpoint(),
            final(self).bounds_map() == old(self).bounds_map(),
            (keep, final(self).last_seen()) == sample_step(old(self).bounds_map(), old(self).last_seen(), *s),
    {
        match self.filter_set.get(&s.metric) {
            None => false,
            Some(bounds) => eval_sample_bounds(bounds, s, &mut self.relative_state),
        }
    }

    /// The samples of a scrape that at least one bound of their metric finds
    /// anomalous, in scrape order. Samples of metrics without a filter are
    /// never reported. Rate bounds compare each sample with the last one of
    /// its metric that a rate bound looked at, which this call then replaces.
    /// The endpoint and the bounds stay as they were.
    pub fn check_filters(&mut self, curr_metrics: Vec<Sample>) -> (r: Vec<Sample>)
        requires
            old(self).wf(),
        ensures
            final(self).wf(),
            final(self).endpoint() == old(self).endpoint(),
            final(self).bounds_map() == old(self).bounds_map(),
            run(old(self).bounds_map(), old(self).last_seen(), curr_metrics@) == (r@, final(self).last_seen()),
    {
        let ghost all = curr_metrics@;
        let n = curr_metrics.len();
        let mut scrape = curr_metrics;
        let mut out: Vec<Sample> = Vec::new();
        let mut i: usize = 0;
        assert(all.subrange(0, 0) =~= Seq::<Sample>::empty());
        while i < n
            invariant
                self.wf(),
                self.endpoint() == old(self).endpoint(),
                self.bounds_map() == old(self).bounds_map(),
                n == all.len(),
                i <= n,
                scrape@.len() == n,
                forall|j: int| i <= j < n ==> scrape@[j] == all[j],
                run(old(self).bounds_map(), old(self).last_seen(), all.subrange(0, i as int))
                    == (out@, self.last_seen()),
            decreases n - i,
        {
            let mut s = Sample {
                metric: String::new(),
                value: MetricValue::Summary,
                labels: Vec::new(),
                timestamp: 0,
            };
            scrape.set_and_swap(i, &mut s);
            assert(s == all[i as int]);
            assert(all.subrange(0, i + 1).drop_last() =~= all.subrange(0, i as int));
            let keep = self.check_sample(&s);
            if keep {
                out.push(s);
            }
            i += 1;
        }
        assert(all.subrange(0, n as int) =~= all);
        out
    }
}

/// A sample whose metric has no bounds is never reported: every reported
/// sample of any scrape, from any remembered state, has bounds.
pub proof fn lemma_unfiltered_never_reported(
    bounds: Map<Seq<char>, Seq<Bound>>,
    seen: Map<Seq<char>, (Reading, int)>,
    ss: Seq<Sample>,
)
    ensures
        forall|i: int|
            0 <= i < run(bounds, seen, ss).0.len() ==> bounds.contains_key(
                #[trigger] run(bounds, seen, ss).0[i].metric@,
            ),
    decreases ss.len(),
{
    if ss.len() > 0 {
        lemma_unfiltered_never_reported(bounds, seen, ss.drop_last());
    }
}

/// No bound of any metric is a rate bound.
pub open spec fn all_absolute(bounds: Map<Seq<char>, Seq<Bound>>) -> bool {
    forall|k: Seq<char>, i: int|
        bounds.contains_key(k) && 0 <= i < bounds[k].len() ==> !(#[trigger] bounds[k][i]).relative()
}

proof fn lemma_absolute_bounds_keep_prev(bs: Seq<Bound>, value: Reading, time: int, prev: Option<(Reading, int)>)
    requires
        forall|i: int| 0 <= i < bs.len() ==> !(#[trigger] bs[i]).relative(),
    ensures
        eval_bounds(bs, value, time, prev).1 == prev,
        eval_bounds(bs, value, time, prev).0 == eval_bounds(bs, value, time, None).0,
    decreases bs.len(),
{
    if bs.len() > 0 {
        let rest = bs.subrange(1, bs.len() as int);
        assert forall|i: int| 0 <= i < rest.len() implies !(#[trigger] rest[i]).relative() by {
            assert(rest[i] == bs[i + 1]);
        }
        assert(!bs[0].relative());
        lemma_absolute_bounds_keep_prev(rest, value, time, prev);
        lemma_absolute_bounds_keep_prev(rest, value, time, None);
    }
}

/// With absolute bounds only, evaluating a scrape leaves the remembered
/// samples as they were, and its result does not depend on them.
pub proof fn lemma_absolute_run_stateless(
    bounds: Map<Seq<char>, Seq<Bound>>,
    seen: Map<Seq<char>, (Reading, int)>,
    other: Map<Seq<char>, (Reading, int)>,
    ss: Seq<Sample>,
)
    requires
        all_absolute(bounds),
    ensures
        run(bounds, seen, ss).1 == seen,
        run(bounds, seen, ss).0 == run(bounds, other, ss).0,
    decreases ss.len(),
{
    if ss.len() > 0 {
        lemma_absolute_run_stateless(bounds, seen, other, ss.drop_last());
        let s = ss.last();
        let k = s.metric@;
        if bounds.contains_key(k) {
            let bs = bounds[k];
            assert forall|i: int| 0 <= i < bs.len() implies !(#[trigger] bs[i]).relative() by {
                assert(!bounds[k][i].relative());
            }
            lemma_absolute_bounds_keep_prev(bs, s.value@, s.timestamp as int, lookup(seen, k));
            lemma_absolute_bounds_keep_prev(
                bs,
                s.value@,
                s.timestamp as int,
                lookup(run(bounds, other, ss.drop_last()).1, k),
            );
            if seen.contains_key(k) {
                assert(seen.insert(k, seen[k]) =~= seen);
            }
        }
    }
}

/// Evaluating the same scrape twice with absolute bounds only gives the same
/// samples both times, and leaves the remembered samples as they were.
pub proof fn lemma_absolute_check_repeats(
    bounds: Map<Seq<char>, Seq<Bound>>,
    seen: Map<Seq<char>, (Reading, int)>,
    ss: Seq<Sample>,
)
    requires
        all_absolute(bounds),
    ensures
        run(bounds, run(bounds, seen, ss).1, ss) == run(bounds, seen, ss),
{
    lemma_absolute_run_stateless(bounds, seen, seen, ss);
}

} // verus!

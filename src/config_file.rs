//! The configuration of the checkers, and how its rules become filters.
//!
//! A configuration names a Prometheus server with the alerts to look for,
//! and endpoints with bounds on their metrics. Limits are fixed-point
//! integers in the unit of the readings; periods are in microseconds.
use vstd::prelude::*;

use crate::alert::{AlertChecker, AlertFilter};
use crate::bound::{Bound, Reading};
use crate::element::{group, ElementHealth, Filter};
use crate::endpoint::url_usable;
use crate::error::AgentError;

verus! {

#[derive(Clone, Debug)]
pub struct Config {
    pub prometheus: Prometheus,
    pub elements: Vec<Element>,
}

#[derive(Clone, Debug)]
pub struct Prometheus {
    pub url: String,
    pub alerts: Vec<AlertSpec>,
}

#[derive(Clone, Debug)]
pub struct AlertSpec {
    pub name: String,
    pub labels: Option<Vec<(String, String)>>,
}

#[derive(Clone, Debug)]
pub struct Element {
    pub url: String,
    pub bounds: Vec<FilterSpec>,
}

/// One bound rule: `bound_type` is one of `abs_lower`, `abs_upper`,
/// `rate_lower` and `rate_upper`, in any case; the rate rules need a period.
#[derive(Clone, Debug)]
pub struct FilterSpec {
    pub metric_name: String,
    pub bound_type: String,
    pub limit: i64,
    pub period: Option<i64>,
}

/// The lower-case form of a text, as `str::to_lowercase` gives it.
pub uninterp spec fn lower_of(s: Seq<char>) -> Seq<char>;

/// Relies on `str::to_lowercase`: its result depends on the characters alone.
#[verifier::external_body]
fn lowercase(s: &str) -> (r: String)
    ensures
        r@ == lower_of(s@),
{
    s.to_lowercase()
}

/// The bound that a rule of the lower-cased type `kind` describes; nothing
/// where the rule is refused.
pub open spec fn bound_of(kind: Seq<char>, limit: i64, period: Option<i64>) -> Option<Bound> {
    if kind == "abs_lower"@ {
        Some(Bound::AbsLower(limit))
    } else if kind == "abs_upper"@ {
        Some(Bound::AbsUpper(limit))
    } else if kind == "rate_lower"@ {
        match period {
            Some(p) => Some(Bound::RateLower { min_increment: limit, time_period: p }),
            None => None,
        }
    } else if kind == "rate_upper"@ {
        match period {
            Some(p) => Some(Bound::RateUpper { max_increment: limit, time_period: p }),
            None => None,
        }
    } else {
        None
    }
}

/// `e` is the error with which a rule of the lower-cased type `kind` is
/// refused.
pub open spec fn refusal(kind: Seq<char>, period: Option<i64>, e: AgentError) -> bool {
    if kind == "rate_lower"@ && period is None {
        e is RateLowerNeedsPeriod
    } else if kind == "rate_upper"@ && period is None {
        e is RateUpperNeedsPeriod
    } else {
        e is UnsupportedBoundType && e->UnsupportedBoundType_0@ == kind
    }
}

/// The filter that rule `fs` describes, if it is accepted.
pub open spec fn filter_of(fs: FilterSpec) -> Option<Filter> {
    match bound_of(lower_of(fs.bound_type@), fs.limit, fs.period) {
        Some(b) => Some(Filter::Exact { metric_name: fs.metric_name, trigger: b }),
        None => None,
    }
}

/// The filters of the rules `specs`, which must all be accepted.
pub open spec fn filters_of(specs: Seq<FilterSpec>) -> Seq<Filter> {
    specs.map_values(|fs: FilterSpec| filter_of(fs).unwrap())
}

impl Filter {
    /// The filter of a rule whose bound type is already lower-cased as
    /// `kind`.
    pub fn from_lowered(kind: &String, value: FilterSpec) -> (r: Result<Filter, AgentError>)
        ensures
            match bound_of(kind@, value.limit, value.period) {
                Some(b) => r == Ok::<Filter, AgentError>(
                    Filter::Exact { metric_name: value.metric_name, trigger: b },
                ),
                None => r is Err && refusal(kind@, value.period, r->Err_0),
            },
    {
        let b = if *kind == "abs_lower".to_owned() {
            Bound::AbsLower(value.limit)
        } else if *kind == "abs_upper".to_owned() {
            Bound::AbsUpper(value.limit)
        } else if *kind == "rate_lower".to_owned() {
            match value.period {
                Some(p) => Bound::RateLower { min_increment: value.limit, time_period: p },
                None => return Err(AgentError::RateLowerNeedsPeriod),
            }
        } else if *kind == "rate_upper".to_owned() {
            match value.period {
                Some(p) => Bound::RateUpper { max_increment: value.limit, time_period: p },
                None => return Err(AgentError::RateUpperNeedsPeriod),
            }
        } else {
            return Err(AgentError::UnsupportedBoundType(kind.clone()));
        };
        Ok(Filter::Exact { metric_name: value.metric_name, trigger: b })
    }

    /// The filter of a rule; the bound type is matched without regard to case.
    pub fn from_spec(value: FilterSpec) -> (r: Result<Filter, AgentError>)
        ensures
            match filter_of(value) {
                Some(f) => r == Ok::<Filter, AgentError>(f),
                None => r is Err && refusal(lower_of(value.bound_type@), value.period, r->Err_0),
            },
    {
        let kind = lowercase(value.bound_type.as_str());
        Filter::from_lowered(&kind, value)
    }
}

impl AlertFilter {
    /// The filter of an alert rule; a rule without labels asks for none.
    pub fn from_alert_spec(value: AlertSpec) -> (r: AlertFilter)
        ensures
            r.name == value.name,
            r.labels@ == match value.labels {
                Some(l) => l@,
                None => Seq::<(String, String)>::empty(),
            },
    {
        let labels = match value.labels {
            Some(l) => l,
            None => Vec::new(),
        };
        AlertFilter { name: value.name, labels }
    }
}

impl AlertChecker {
    /// The checker that the `prometheus` section configures.
    pub fn from_prometheus(value: Prometheus) -> (r: Result<AlertChecker, AgentError>)
        ensures
            match r {
                Ok(c) => {
                    &&& c.filters().len() == value.alerts@.len()
                    &&& forall|i: int|
                        0 <= i < value.alerts@.len() ==> {
                            let a = #[trigger] value.alerts@[i];
                            &&& c.filters()[i].name == a.name
                            &&& c.filters()[i].labels@ == match a.labels {
                                Some(l) => l@,
                                None => Seq::<(String, String)>::empty(),
                            }
                        }
                },
                Err(err) => err is InvalidUrl && err->InvalidUrl_0@ == value.url@,
            },
            r is Ok <==> url_usable(value.url@),
    {
        let ghost specs = value.alerts@;
        let mut alerts = value.alerts;
        let n = alerts.len();
        let mut filters: Vec<AlertFilter> = Vec::new();
        let mut i: usize = 0;
        while i < n
            invariant
                n == specs.len(),
                i <= n,
                alerts@.len() == n,
                forall|j: int| i <= j < n ==> alerts@[j] == specs[j],
                filters@.len() == i,
                forall|j: int|
                    0 <= j < i ==> {
                        let a = specs[j];
                        &&& (#[trigger] filters@[j]).name == a.name
                        &&& filters@[j].labels@ == match a.labels {
                            Some(l) => l@,
                            None => Seq::<(String, String)>::empty(),
                        }
                    },
            decreases n - i,
        {
            let mut a = AlertSpec { name: String::new(), labels: None };
            alerts.set_and_swap(i, &mut a);
            assert(a == specs[i as int]);
            filters.push(AlertFilter::from_alert_spec(a));
            i += 1;
        }
        AlertChecker::new(value.url.as_str(), filters)
    }
}

impl ElementHealth {
    /// The checker that an `elements` entry configures. Its rules are
    /// converted in order, and the first refused rule fails the whole entry;
    /// then the address is checked.
    pub fn from_element(value: Element) -> (r: Result<ElementHealth, AgentError>)
        ensures
            (exists|i: int| 0 <= i < value.bounds@.len() && (#[trigger] filter_of(value.bounds@[i])) is None)
                ==> r is Err && exists|i: int|
                0 <= i < value.bounds@.len() && (forall|j: int| 0 <= j < i ==> (#[trigger] filter_of(value.bounds@[j])) is Some)
                    && refusal(
                    lower_of(value.bounds@[i].bound_type@),
                    value.bounds@[i].period,
                    r->Err_0,
                ) && filter_of(value.bounds@[i]) is None,
            (forall|i: int| 0 <= i < value.bounds@.len() ==> (#[trigger] filter_of(value.bounds@[i])) is Some)
                ==> match r {
                Ok(e) => {
                    &&& e.wf()
                    &&& e.bounds_map() == group(filters_of(value.bounds@))
                    &&& e.last_seen() == Map::<Seq<char>, (Reading, int)>::empty()
                },
                Err(err) => err is InvalidUrl && err->InvalidUrl_0@ == value.url@,
            },
            (forall|i: int| 0 <= i < value.bounds@.len() ==> (#[trigger] filter_of(value.bounds@[i])) is Some)
                ==> (r is Ok <==> url_usable(value.url@)),
    {
        let ghost specs = value.bounds@;
        let n = value.bounds.len();
        let mut rules = value.bounds;
        let mut filters: Vec<Filter> = Vec::new();
        let mut i: usize = 0;
        assert(specs.subrange(0, 0) =~= Seq::<FilterSpec>::empty());
        while i < n
            invariant
                n == specs.len(),
                specs == value.bounds@,
                i <= n,
                rules@.len() == n,
                forall|j: int| i <= j < n ==> rules@[j] == specs[j],
                filters@ == filters_of(specs.subrange(0, i as int)),
                forall|j: int| 0 <= j < i ==> (#[trigger] filter_of(specs[j])) is Some,
            decreases n - i,
        {
            let mut fs = FilterSpec { metric_name: String::new(), bound_type: String::new(), limit: 0, period: None };
            rules.set_and_swap(i, &mut fs);
            assert(fs == specs[i as int]);
            match Filter::from_spec(fs) {
                Ok(f) => filters.push(f),
                Err(e) => {
                    assert(filter_of(specs[i as int]) is None);
                    assert(forall|j: int| 0 <= j < i ==> (#[trigger] filter_of(specs[j])) is Some);
                    return Err(e);
                },
            }
            assert(filters_of(specs.subrange(0, i + 1)) =~= filters_of(specs.subrange(0, i as int)).push(
                filter_of(specs[i as int]).unwrap(),
            ));
            i += 1;
        }
        assert(specs.subrange(0, n as int) =~= specs);
        ElementHealth::new(value.url.as_str(), filters)
    }
}

} // verus!

use wtf_prometheus_agent::config_file::{AlertSpec, Element, FilterSpec, Prometheus};
use wtf_prometheus_agent::{AgentError, AlertChecker, AlertFilter, Bound, ElementHealth, Filter, MetricValue, Sample};

fn rule(metric: &str, bound_type: &str, limit: i64, period: Option<i64>) -> FilterSpec {
    FilterSpec { metric_name: metric.to_string(), bound_type: bound_type.to_string(), limit, period }
}

fn bound_of(f: Result<Filter, AgentError>) -> Bound {
    match f.unwrap() {
        Filter::Exact { trigger, .. } => trigger,
    }
}

#[test]
fn bound_types_are_read_in_any_case() {
    assert_eq!(bound_of(Filter::from_spec(rule("m", "ABS_Upper", 3, None))), Bound::AbsUpper(3));
    assert_eq!(bound_of(Filter::from_spec(rule("m", "abs_lower", -3, None))), Bound::AbsLower(-3));
    assert_eq!(
        bound_of(Filter::from_spec(rule("m", "Rate_Lower", 4, Some(60)))),
        Bound::RateLower { min_increment: 4, time_period: 60 }
    );
    assert_eq!(
        bound_of(Filter::from_spec(rule("m", "RATE_UPPER", 5, Some(7)))),
        Bound::RateUpper { max_increment: 5, time_period: 7 }
    );
}

#[test]
fn filter_keeps_metric_name() {
    match Filter::from_spec(rule("http_requests_total", "abs_upper", 1, None)).unwrap() {
        Filter::Exact { metric_name, .. } => assert_eq!(metric_name, "http_requests_total"),
    }
}

#[test]
fn unsupported_bound_type_is_refused() {
    let r = Filter::from_spec(rule("m", "Abs_Middle", 1, None));
    assert_eq!(r.unwrap_err(), AgentError::UnsupportedBoundType("abs_middle".to_string()));
}

#[test]
fn rate_rules_need_a_period() {
    assert_eq!(Filter::from_spec(rule("m", "rate_lower", 1, None)).unwrap_err(), AgentError::RateLowerNeedsPeriod);
    assert_eq!(Filter::from_spec(rule("m", "rate_upper", 1, None)).unwrap_err(), AgentError::RateUpperNeedsPeriod);
}

#[test]
fn from_lowered_does_not_fold_case() {
    let r = Filter::from_lowered(&"ABS_UPPER".to_string(), rule("m", "ABS_UPPER", 1, None));
    assert_eq!(r.unwrap_err(), AgentError::UnsupportedBoundType("ABS_UPPER".to_string()));
}

#[test]
fn alert_spec_without_labels_asks_for_none() {
    let f = AlertFilter::from_alert_spec(AlertSpec { name: "Foo".to_string(), labels: None });
    assert_eq!(f.name, "Foo");
    assert!(f.labels.is_empty());
    let g = AlertFilter::from_alert_spec(AlertSpec {
        name: "Bar".to_string(),
        labels: Some(vec![("statefulset".to_string(), "rabbitmq".to_string())]),
    });
    assert_eq!(g.labels, vec![("statefulset".to_string(), "rabbitmq".to_string())]);
}

#[test]
fn prometheus_section_builds_checker() {
    let p = Prometheus {
        url: "http://localhost:9090".to_string(),
        alerts: vec![
            AlertSpec { name: "RabbitmqTooManyUnackMessages".to_string(), labels: None },
            AlertSpec { name: "KubeStatefulSetReplicasMismatch".to_string(), labels: None },
        ],
    };
    let c = AlertChecker::from_prometheus(p).unwrap();
    assert_eq!(c.url().as_str(), "http://localhost:9090/");
    let no_host = Prometheus { url: "mailto:ops@example.com".to_string(), alerts: vec![] };
    assert!(matches!(AlertChecker::from_prometheus(no_host), Err(AgentError::InvalidUrl(_))));
    let bad = Prometheus { url: "localhost".to_string(), alerts: vec![] };
    assert!(matches!(AlertChecker::from_prometheus(bad), Err(AgentError::InvalidUrl(_))));
}

#[test]
fn element_with_refused_rule_fails_on_first() {
    let e = Element {
        url: "http://localhost:9419/metrics".to_string(),
        bounds: vec![
            rule("a", "abs_upper", 1, None),
            rule("b", "rate_upper", 1, None),
            rule("c", "bogus", 1, None),
        ],
    };
    assert_eq!(ElementHealth::from_element(e).err(), Some(AgentError::RateUpperNeedsPeriod));
}

#[test]
fn element_rules_are_checked_before_the_url() {
    let e = Element { url: "nowhere".to_string(), bounds: vec![rule("c", "bogus", 1, None)] };
    assert_eq!(ElementHealth::from_element(e).err(), Some(AgentError::UnsupportedBoundType("bogus".to_string())));
    let e = Element { url: "nowhere".to_string(), bounds: vec![rule("c", "abs_upper", 1, None)] };
    assert_eq!(ElementHealth::from_element(e).err(), Some(AgentError::InvalidUrl("nowhere".to_string())));
}

#[test]
fn element_builds_working_checker() {
    let e = Element {
        url: "http://localhost:9419/metrics".to_string(),
        bounds: vec![rule("rabbitmq_global_messages_unroutable_dropped_total", "abs_upper", 1, None)],
    };
    let mut h = ElementHealth::from_element(e).unwrap();
    let out = h.check_filters(vec![Sample {
        metric: "rabbitmq_global_messages_unroutable_dropped_total".to_string(),
        value: MetricValue::Counter(2),
        labels: vec![],
        timestamp: 0,
    }]);
    assert_eq!(out.len(), 1);
}

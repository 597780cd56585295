use wtf_prometheus_agent::{AgentError, Bound, ElementHealth, Filter, HistogramCount, MetricValue, Sample};

const SECOND: i64 = 1_000_000;

fn sample(metric: &str, value: MetricValue, timestamp: i64) -> Sample {
    Sample { metric: metric.to_string(), value, labels: vec![], timestamp }
}

fn exact(metric: &str, trigger: Bound) -> Filter {
    Filter::Exact { metric_name: metric.to_string(), trigger }
}

fn names(samples: &[Sample]) -> Vec<String> {
    samples.iter().map(|s| s.metric.clone()).collect()
}

#[test]
fn new_refuses_invalid_url() {
    let r = ElementHealth::new("not a url", vec![]);
    assert_eq!(r.err(), Some(AgentError::InvalidUrl("not a url".to_string())));
}

#[test]
fn new_refuses_url_without_host() {
    let r = ElementHealth::new("mailto:someone@example.com", vec![]);
    assert!(matches!(r, Err(AgentError::InvalidUrl(_))));
}

#[test]
fn new_parses_and_normalises_url() {
    let e = ElementHealth::new("HTTP://LocalHost:9419", vec![]).unwrap();
    assert_eq!(e.url().as_str(), "http://localhost:9419/");
}

#[test]
fn unconfigured_metric_is_never_reported() {
    let mut e = ElementHealth::new("http://localhost:9419/metrics", vec![exact("a", Bound::AbsUpper(0))]).unwrap();
    let out = e.check_filters(vec![
        sample("b", MetricValue::Gauge(100), 0),
        sample("a", MetricValue::Gauge(100), 0),
        sample("c", MetricValue::Counter(i64::MAX), 0),
    ]);
    assert_eq!(names(&out), vec!["a".to_string()]);
}

#[test]
fn empty_scrape_reports_nothing() {
    let mut e = ElementHealth::new("http://localhost:9419/metrics", vec![exact("a", Bound::AbsUpper(0))]).unwrap();
    assert!(e.check_filters(vec![]).is_empty());
}

#[test]
fn reports_keep_scrape_order_and_any_bound_suffices() {
    let filters = vec![
        exact("x", Bound::AbsUpper(10)),
        exact("y", Bound::AbsLower(0)),
        exact("x", Bound::AbsLower(-10)),
    ];
    let mut e = ElementHealth::new("http://localhost:9419/metrics", filters).unwrap();
    let out = e.check_filters(vec![
        sample("y", MetricValue::Gauge(-1), 0),
        sample("x", MetricValue::Gauge(0), 0),
        sample("x", MetricValue::Gauge(-11), 0),
        sample("x", MetricValue::Gauge(11), 0),
    ]);
    assert_eq!(out.len(), 3);
    assert_eq!(names(&out), vec!["y", "x", "x"]);
    assert!(matches!(out[1].value, MetricValue::Gauge(-11)));
    assert!(matches!(out[2].value, MetricValue::Gauge(11)));
}

#[test]
fn absolute_bounds_give_the_same_result_twice() {
    let filters = vec![exact("a", Bound::AbsUpper(5)), exact("b", Bound::AbsLower(5))];
    let mut e = ElementHealth::new("http://localhost:9419/metrics", filters).unwrap();
    let scrape = || {
        vec![
            sample("a", MetricValue::Gauge(6), 0),
            sample("b", MetricValue::Gauge(6), 0),
            sample("b", MetricValue::Gauge(4), 0),
        ]
    };
    let first = names(&e.check_filters(scrape()));
    let second = names(&e.check_filters(scrape()));
    assert_eq!(first, vec!["a", "b"]);
    assert_eq!(first, second);
}

#[test]
fn rate_bound_compares_with_previous_scrape() {
    let filters = vec![exact("req", Bound::RateUpper { max_increment: 100, time_period: 60 * SECOND })];
    let mut e = ElementHealth::new("http://localhost:9419/metrics", filters).unwrap();
    // First sight: the sample is its own baseline, so nothing triggers.
    assert!(e.check_filters(vec![sample("req", MetricValue::Counter(0), 0)]).is_empty());
    // 200 in 60 s is above 100 per 60 s.
    let out = e.check_filters(vec![sample("req", MetricValue::Counter(200), 60 * SECOND)]);
    assert_eq!(names(&out), vec!["req"]);
    // 50 more in 60 s is below the limit.
    assert!(e.check_filters(vec![sample("req", MetricValue::Counter(250), 120 * SECOND)]).is_empty());
}

#[test]
fn same_relative_scrape_twice_can_differ() {
    let filters = vec![exact("req", Bound::RateUpper { max_increment: 1, time_period: SECOND })];
    let mut e = ElementHealth::new("http://localhost:9419/metrics", filters).unwrap();
    assert!(e.check_filters(vec![sample("req", MetricValue::Gauge(0), 0)]).is_empty());
    let scrape = || vec![sample("req", MetricValue::Gauge(10), SECOND)];
    assert_eq!(e.check_filters(scrape()).len(), 1);
    // The stored sample is now the same one: no time has passed.
    assert!(e.check_filters(scrape()).is_empty());
}

#[test]
fn remembered_sample_is_updated_within_one_scrape() {
    let filters = vec![exact("g", Bound::RateLower { min_increment: 0, time_period: SECOND })];
    let mut e = ElementHealth::new("http://localhost:9419/metrics", filters).unwrap();
    let out = e.check_filters(vec![
        sample("g", MetricValue::Gauge(10), 0),
        sample("g", MetricValue::Gauge(5), SECOND),
        sample("g", MetricValue::Gauge(6), 2 * SECOND),
    ]);
    assert_eq!(out.len(), 1);
    assert!(matches!(out[0].value, MetricValue::Gauge(5)));
}

#[test]
fn reported_samples_keep_their_labels() {
    let mut e = ElementHealth::new("http://localhost:9419/metrics", vec![exact("a", Bound::AbsUpper(0))]).unwrap();
    let labels = vec![("instance".to_string(), "node1".to_string())];
    let out = e.check_filters(vec![Sample {
        metric: "a".to_string(),
        value: MetricValue::Gauge(1),
        labels: labels.clone(),
        timestamp: 0,
    }]);
    assert_eq!(out.len(), 1);
    assert_eq!(out[0].labels, labels);
}

#[test]
fn metric_value_duplicate_keeps_the_reading() {
    let h = MetricValue::Histogram(vec![HistogramCount { less_than: 5, count: 2 }]);
    match h.duplicate() {
        MetricValue::Histogram(b) => assert_eq!(b, vec![HistogramCount { less_than: 5, count: 2 }]),
        other => panic!("unexpected {:?}", other),
    }
    assert!(matches!(MetricValue::Counter(-3).duplicate(), MetricValue::Counter(-3)));
}

#[test]
fn filters_compare_by_name_and_bound() {
    assert_eq!(exact("a", Bound::AbsUpper(1)), exact("a", Bound::AbsUpper(1)));
    assert_ne!(exact("a", Bound::AbsUpper(1)), exact("b", Bound::AbsUpper(1)));
}

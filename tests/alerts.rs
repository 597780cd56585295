use wtf_prometheus_agent::{AgentError, Alert, AlertChecker, AlertFilter};

fn pairs(kv: &[(&str, &str)]) -> Vec<(String, String)> {
    kv.iter().map(|(k, v)| (k.to_string(), v.to_string())).collect()
}

fn alert(labels: &[(&str, &str)], state: &str) -> Alert {
    Alert {
        labels: pairs(labels),
        annotations: vec![],
        state: state.to_string(),
        active_at: "2024-01-01T00:00:00Z".to_string(),
        value: "1e+00".to_string(),
    }
}

fn filter(name: &str, labels: &[(&str, &str)]) -> AlertFilter {
    AlertFilter { name: name.to_string(), labels: pairs(labels) }
}

#[test]
fn firing_alert_matches_filter_without_labels() {
    let a = alert(&[("alertname", "Foo")], "firing");
    assert!(a.check(&filter("Foo", &[])));
}

#[test]
fn pending_alert_does_not_match() {
    let a = alert(&[("alertname", "Foo")], "pending");
    assert!(!a.check(&filter("Foo", &[])));
}

#[test]
fn missing_required_label_does_not_match() {
    let a = alert(&[("alertname", "Foo")], "firing");
    assert!(!a.check(&filter("Foo", &[("job", "x")])));
}

#[test]
fn required_labels_must_all_be_equal() {
    let a = alert(&[("alertname", "Foo"), ("job", "x"), ("instance", "i1"), ("extra", "e")], "firing");
    assert!(a.check(&filter("Foo", &[("job", "x"), ("instance", "i1")])));
    assert!(!a.check(&filter("Foo", &[("job", "x"), ("instance", "i2")])));
}

#[test]
fn other_name_or_missing_name_does_not_match() {
    assert!(!alert(&[("alertname", "Bar")], "firing").check(&filter("Foo", &[])));
    assert!(!alert(&[("job", "x")], "firing").check(&filter("Foo", &[])));
    assert!(!alert(&[("alertname", "foo")], "firing").check(&filter("Foo", &[])));
}

#[test]
fn checker_refuses_invalid_url() {
    let r = AlertChecker::new("::::", vec![]);
    assert_eq!(r.err(), Some(AgentError::InvalidUrl("::::".to_string())));
}

#[test]
fn unsuccessful_status_fails_whatever_the_alerts() {
    let c = AlertChecker::new("http://localhost:9090/api/v1/alerts", vec![filter("Foo", &[])]).unwrap();
    let r = c.check("error", vec![alert(&[("alertname", "Foo")], "firing")]);
    assert_eq!(r.unwrap_err(), AgentError::ResponseNotSuccess("error".to_string()));
    let r = c.check("", vec![]);
    assert_eq!(r.unwrap_err(), AgentError::ResponseNotSuccess(String::new()));
}

#[test]
fn successful_status_keeps_matched_alerts_in_order() {
    let filters = vec![filter("Foo", &[]), filter("Bar", &[("job", "x")])];
    let c = AlertChecker::new("http://localhost:9090/api/v1/alerts", filters).unwrap();
    let alerts = vec![
        alert(&[("alertname", "Bar"), ("job", "x")], "firing"),
        alert(&[("alertname", "Foo")], "pending"),
        alert(&[("alertname", "Bar"), ("job", "y")], "firing"),
        alert(&[("alertname", "Foo"), ("severity", "page")], "firing"),
    ];
    let out = c.check("success", alerts).unwrap();
    assert_eq!(out.len(), 2);
    assert_eq!(out[0].labels, pairs(&[("alertname", "Bar"), ("job", "x")]));
    assert_eq!(out[1].labels, pairs(&[("alertname", "Foo"), ("severity", "page")]));
}

#[test]
fn successful_status_with_no_match_is_empty() {
    let c = AlertChecker::new("http://localhost:9090/api/v1/alerts", vec![]).unwrap();
    let out = c.check("success", vec![alert(&[("alertname", "Foo")], "firing")]).unwrap();
    assert!(out.is_empty());
}

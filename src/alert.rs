//! Matching of alert records, as the Prometheus alerts API reports them,
//! against configured alert names and labels.
use vstd::prelude::*;

use crate::endpoint::{endpoint_url, url_usable};
use crate::error::AgentError;

verus! {

/// Selects firing alerts by name and, where any are given, by labels.
#[derive(Clone, Debug)]
pub struct AlertFilter {
    pub name: String,
    /// Labels that a matched alert must carry, each with the given value.
    pub labels: Vec<(String, String)>,
}

/// An alert record. `labels` and `annotations` map names to values, one pair
/// per name, as the alerts API gives them; a lookup takes the first pair of a
/// name.
#[derive(Clone, Debug)]
pub struct Alert {
    pub labels: Vec<(String, String)>,
    pub annotations: Vec<(String, String)>,
    pub state: String,
    pub active_at: String,
    pub value: String,
}

/// The value of the first pair named `k`, if any.
pub open spec fn label_value(labels: Seq<(String, String)>, k: Seq<char>) -> Option<Seq<char>>
    decreases labels.len(),
{
    if labels.len() == 0 {
        None
    } else if labels[0].0@ == k {
        Some(labels[0].1@)
    } else {
        label_value(labels.subrange(1, labels.len() as int), k)
    }
}

/// The alert is named as the filter says, is firing, and carries every label
/// of the filter with its value.
pub open spec fn alert_matches(a: Alert, f: AlertFilter) -> bool {
    &&& label_value(a.labels@, "alertname"@) == Some(f.name@)
    &&& a.state@ == "firing"@
    &&& forall|i: int|
        0 <= i < f.labels@.len() ==> label_value(a.labels@, (#[trigger] f.labels@[i]).0@) == Some(
            f.labels@[i].1@,
        )
}

/// Some filter of `fs` matches the alert.
pub open spec fn matched_by_any(a: Alert, fs: Seq<AlertFilter>) -> bool {
    exists|i: int| 0 <= i < fs.len() && alert_matches(a, #[trigger] fs[i])
}

/// The alerts of `alerts` that some filter of `fs` matches, in order.
pub open spec fn matched_alerts(alerts: Seq<Alert>, fs: Seq<AlertFilter>) -> Seq<Alert>
    decreases alerts.len(),
{
    if alerts.len() == 0 {
        Seq::empty()
    } else {
        let before = matched_alerts(alerts.drop_last(), fs);
        if matched_by_any(alerts.last(), fs) {
            before.push(alerts.last())
        } else {
            before
        }
    }
}

/// The value of the first label of `labels` named `k`.
fn find_label<'a>(labels: &'a Vec<(String, String)>, k: &String) -> (r: Option<&'a String>)
    ensures
        match r {
            Some(v) => label_value(labels@, k@) == Some(v@),
            None => label_value(labels@, k@) is None,
        },
{
    let ghost n = labels@.len() as int;
    let mut i: usize = 0;
    assert(labels@.subrange(0, n) =~= labels@);
    while i < labels.len()
        invariant
            i <= labels@.len(),
            n == labels@.len(),
            label_value(labels@, k@) == label_value(labels@.subrange(i as int, n), k@),
        decreases labels@.len() - i,
    {
        assert(labels@.subrange(i as int, n).subrange(1, n - i) =~= labels@.subrange(i + 1, n));
        if labels[i].0 == *k {
            return Some(&labels[i].1);
        }
        i += 1;
    }
    None
}

impl Alert {
    /// Whether `filter` matches this alert: the alert's `alertname` label is
    /// the filter's name, its state is `firing`, and it carries every label
    /// of the filter with the filter's value.
    pub fn check(&self, filter: &AlertFilter) -> (r: bool)
        ensures
            r == alert_matches(*self, *filter),
    {
        let alertname = "alertname".to_owned();
        match find_label(&self.labels, &alertname) {
            None => return false,
            Some(name) => {
                if *name != filter.name {
                    return false;
                }
            },
        }
        let firing = "firing".to_owned();
        if self.state != firing {
            return false;
        }
        let mut i: usize = 0;
        while i < filter.labels.len()
            invariant
                i <= filter.labels@.len(),
                forall|j: int|
                    0 <= j < i ==> label_value(self.labels@, (#[trigger] filter.labels@[j]).0@) == Some(
                        filter.labels@[j].1@,
                    ),
            decreases filter.labels@.len() - i,
        {
            match find_label(&self.labels, &filter.labels[i].0) {
                Some(v) => {
                    if *v != filter.labels[i].1 {
                        return false;
                    }
                },
                None => return false,
            }
            i += 1;
        }
        true
    }
}

/// A checker of the alerts of one Prometheus server.
pub struct AlertChecker {
    url: reqwest::Url,
    alert_set: Vec<AlertFilter>,
}

impl AlertChecker {
    /// The configured filters.
    pub closed spec fn filters(&self) -> Seq<AlertFilter> {
        self.alert_set@
    }

    /// A checker of the alerts endpoint at `url`; fails when `url` is not a
    /// usable address.
    pub fn new(url: &str, filters: Vec<AlertFilter>) -> (r: Result<AlertChecker, AgentError>)
        ensures
            match r {
                Ok(c) => c.filters() == filters@,
                Err(err) => err is InvalidUrl && err->InvalidUrl_0@ == url@,
            },
            r is Ok <==> url_usable(url@),
    {
        match endpoint_url(url) {
            Ok(u) => Ok(AlertChecker { url: u, alert_set: filters }),
            Err(e) => Err(e),
        }
    }

    /// The address of the alerts endpoint.
    pub fn url(&self) -> &reqwest::Url {
        &self.url
    }

    /// Whether some configured filter matches `alert`.
    fn matches_any(&self, alert: &Alert) -> (r: bool)
        ensures
            r == matched_by_any(*alert, self.filters()),
    {
        let mut i: usize = 0;
        while i < self.alert_set.len()
            invariant
                i <= self.alert_set@.len(),
                forall|j: int| 0 <= j < i ==> !alert_matches(*alert, #[trigger] self.alert_set@[j]),
            decreases self.alert_set@.len() - i,
        {
            if alert.check(&self.alert_set[i]) {
                return true;
            }
            i += 1;
        }
        false
    }

    /// The outcome of one query of the alerts endpoint, given the `status`
    /// and the alerts of its response: an error unless the status is
    /// `success`, whatever the alerts; otherwise the alerts that some filter
    /// matches, in response order.
    pub fn check(&self, status: &str, alerts: Vec<Alert>) -> (r: Result<Vec<Alert>, AgentError>)
        ensures
            status@ != "success"@ ==> r is Err && r->Err_0 is ResponseNotSuccess
                && r->Err_0->ResponseNotSuccess_0@ == status@,
            status@ == "success"@ ==> r is Ok && r->Ok_0@ == matched_alerts(alerts@, self.filters()),
    {
        let success = "success".to_owned();
        if status.to_owned() != success {
            return Err(AgentError::ResponseNotSuccess(status.to_owned()));
        }
        let ghost all = alerts@;
        let n = alerts.len();
        let mut rest = alerts;
        let mut out: Vec<Alert> = Vec::new();
        let mut i: usize = 0;
        assert(all.subrange(0, 0) =~= Seq::<Alert>::empty());
        while i < n
            invariant
                n == all.len(),
                i <= n,
                rest@.len() == n,
                forall|j: int| i <= j < n ==> rest@[j] == all[j],
                matched_alerts(all.subrange(0, i as int), self.filters()) == out@,
            decreases n - i,
        {
            let mut a = Alert {
                labels: Vec::new(),
                annotations: Vec::new(),
                state: String::new(),
                active_at: String::new(),
                value: String::new(),
            };
            rest.set_and_swap(i, &mut a);
            assert(a == all[i as int]);
            assert(all.subrange(0, i + 1).drop_last() =~= all.subrange(0, i as int));
            if self.matches_any(&a) {
                out.push(a);
            }
            i += 1;
        }
        assert(all.subrange(0, n as int) =~= all);
        Ok(out)
    }
}

} // verus!

//! What is counted and measured.
use vstd::prelude::*;

use crate::number;
use crate::number::decimal_text;

verus! {

/// A change of a metric.
#[derive(Debug, Clone)]
pub enum Update {
    /// Adds to a counter.
    Count { name: String, labels: Vec<(String, String)>, by: u64 },
    /// Adds one to a gauge.
    Raise { name: String },
    /// Takes one from a gauge.
    Lower { name: String },
    /// Records how long something took.
    Time { name: String, labels: Vec<(String, String)> },
}

/// The value of an [`Update`].
pub enum UpdateView {
    Count { name: Seq<char>, labels: Seq<(Seq<char>, Seq<char>)>, by: int },
    Raise { name: Seq<char> },
    Lower { name: Seq<char> },
    Time { name: Seq<char>, labels: Seq<(Seq<char>, Seq<char>)> },
}

/// Labels and their values, as texts.
pub open spec fn label_pairs(labels: Seq<(String, String)>) -> Seq<(Seq<char>, Seq<char>)> {
    Seq::new(labels.len(), |i: int| (labels[i].0@, labels[i].1@))
}

impl View for Update {
    type V = UpdateView;

    open spec fn view(&self) -> UpdateView {
        match self {
            Update::Count { name, labels, by } => UpdateView::Count {
                name: name@,
                labels: label_pairs(labels@),
                by: *by as int,
            },
            Update::Raise { name } => UpdateView::Raise { name: name@ },
            Update::Lower { name } => UpdateView::Lower { name: name@ },
            Update::Time { name, labels } => UpdateView::Time {
                name: name@,
                labels: label_pairs(labels@),
            },
        }
    }
}

/// The values of a sequence of updates.
pub open spec fn updates(s: Seq<Update>) -> Seq<UpdateView> {
    Seq::new(s.len(), |i: int| s[i]@)
}

/// The name of the way in which a request is answered.
pub open spec fn mode_name(streaming: bool) -> Seq<char> {
    if streaming {
        "streaming"@
    } else {
        "batch"@
    }
}

/// What changes when a request starts.
pub open spec fn started(streaming: bool) -> Seq<UpdateView> {
    seq![
        UpdateView::Count {
            name: "proxy_requests_total"@,
            labels: seq![("mode"@, mode_name(streaming))],
            by: 1,
        },
        UpdateView::Raise { name: "proxy_requests_in_flight"@ },
    ]
}

/// The labels of an answered request.
pub open spec fn answer_labels(status: u16, streaming: bool) -> Seq<(Seq<char>, Seq<char>)> {
    seq![("mode"@, mode_name(streaming)), ("status"@, number::decimal(status as nat))]
}

/// What changes when a request is answered.
pub open spec fn finished(status: u16, streaming: bool) -> Seq<UpdateView> {
    seq![
        UpdateView::Time {
            name: "proxy_request_duration_seconds"@,
            labels: answer_labels(status, streaming),
        },
        UpdateView::Count {
            name: "proxy_responses_total"@,
            labels: answer_labels(status, streaming),
            by: 1,
        },
        UpdateView::Lower { name: "proxy_requests_in_flight"@ },
    ]
}

/// What changes when tokens were used.
pub open spec fn tokens_used(input: u32, output: u32, model: Seq<char>) -> Seq<UpdateView> {
    seq![
        UpdateView::Count {
            name: "proxy_tokens_total"@,
            labels: seq![("type"@, "input"@), ("model"@, model)],
            by: input as int,
        },
        UpdateView::Count {
            name: "proxy_tokens_total"@,
            labels: seq![("type"@, "output"@), ("model"@, model)],
            by: output as int,
        },
    ]
}

/// What changes when an upstream failed.
pub open spec fn upstream_failed(endpoint: Seq<char>) -> Seq<UpdateView> {
    seq![
        UpdateView::Count {
            name: "proxy_upstream_errors_total"@,
            labels: seq![("endpoint"@, endpoint)],
            by: 1,
        },
    ]
}

/// What is measured when an upstream answered.
pub open spec fn upstream_answered(endpoint: Seq<char>) -> Seq<UpdateView> {
    seq![
        UpdateView::Time {
            name: "proxy_upstream_latency_seconds"@,
            labels: seq![("endpoint"@, endpoint)],
        },
    ]
}

/// By how much updates change a gauge.
pub open spec fn gauge_change(changes: Seq<UpdateView>, gauge: Seq<char>) -> int
    decreases changes.len(),
{
    if changes.len() == 0 {
        0
    } else {
        gauge_change(changes.drop_last(), gauge) + match changes.last() {
            UpdateView::Raise { name } => if name == gauge {
                1
            } else {
                0int
            },
            UpdateView::Lower { name } => if name == gauge {
                -1
            } else {
                0int
            },
            _ => 0int,
        }
    }
}

/// A request that was answered leaves every gauge as it was before it started,
/// however it was answered.
pub proof fn answered_requests_leave_gauges(
    status: u16,
    streaming: bool,
    answered_streaming: bool,
    gauge: Seq<char>,
)
    ensures
        gauge_change(started(streaming), gauge) + gauge_change(
            finished(status, answered_streaming),
            gauge,
        ) == 0,
{
    let a = started(streaming);
    let b = finished(status, answered_streaming);
    reveal_with_fuel(gauge_change, 4);
    assert(a.drop_last().drop_last() == Seq::<UpdateView>::empty());
    assert(b.drop_last().drop_last().drop_last() == Seq::<UpdateView>::empty());
}

/// The status under which a request counts: that of the response, or that of an
/// error of the proxy.
pub fn counted_status(response: Option<u16>) -> (r: u16)
    ensures
        r == match response {
            Some(status) => status,
            None => 500,
        },
{
    match response {
        Some(status) => status,
        None => 500,
    }
}

fn mode_of(streaming: bool) -> (r: String)
    ensures
        r@ == mode_name(streaming),
{
    if streaming {
        "streaming".to_owned()
    } else {
        "batch".to_owned()
    }
}

fn label(name: &str, value: String) -> (r: Vec<(String, String)>)
    ensures
        label_pairs(r@) == seq![(name@, value@)],
{
    let mut r: Vec<(String, String)> = Vec::new();
    r.push((name.to_owned(), value));
    assert(label_pairs(r@) == seq![(name@, value@)]);
    r
}

fn two_labels(name: &str, value: String, other: &str, other_value: String) -> (r: Vec<
    (String, String),
>)
    ensures
        label_pairs(r@) == seq![(name@, value@), (other@, other_value@)],
{
    let mut r: Vec<(String, String)> = Vec::new();
    r.push((name.to_owned(), value));
    r.push((other.to_owned(), other_value));
    assert(label_pairs(r@) == seq![(name@, value@), (other@, other_value@)]);
    r
}

/// What changes when a request starts.
pub fn request_started(streaming: bool) -> (r: Vec<Update>)
    ensures
        updates(r@) == started(streaming),
{
    let mut r: Vec<Update> = Vec::new();
    r.push(
        Update::Count {
            name: "proxy_requests_total".to_owned(),
            labels: label("mode", mode_of(streaming)),
            by: 1,
        },
    );
    r.push(Update::Raise { name: "proxy_requests_in_flight".to_owned() });
    assert(updates(r@) == started(streaming));
    r
}

/// What changes when a request is answered.
pub fn request_finished(status: u16, streaming: bool) -> (r: Vec<Update>)
    ensures
        updates(r@) == finished(status, streaming),
{
    let mut r: Vec<Update> = Vec::new();
    r.push(
        Update::Time {
            name: "proxy_request_duration_seconds".to_owned(),
            labels: two_labels(
                "mode",
                mode_of(streaming),
                "status",
                decimal_text(status as u32),
            ),
        },
    );
    r.push(
        Update::Count {
            name: "proxy_responses_total".to_owned(),
            labels: two_labels(
                "mode",
                mode_of(streaming),
                "status",
                decimal_text(status as u32),
            ),
            by: 1,
        },
    );
    r.push(Update::Lower { name: "proxy_requests_in_flight".to_owned() });
    assert(updates(r@) == finished(status, streaming));
    r
}

/// What changes when tokens were used.
pub fn tokens(input: u32, output: u32, model: &str) -> (r: Vec<Update>)
    ensures
        updates(r@) == tokens_used(input, output, model@),
{
    let mut r: Vec<Update> = Vec::new();
    r.push(
        Update::Count {
            name: "proxy_tokens_total".to_owned(),
            labels: two_labels("type", "input".to_owned(), "model", model.to_owned()),
            by: input as u64,
        },
    );
    r.push(
        Update::Count {
            name: "proxy_tokens_total".to_owned(),
            labels: two_labels("type", "output".to_owned(), "model", model.to_owned()),
            by: output as u64,
        },
    );
    assert(updates(r@) == tokens_used(input, output, model@));
    r
}

/// What changes when an upstream failed.
pub fn upstream_error(endpoint: &str) -> (r: Vec<Update>)
    ensures
        updates(r@) == upstream_failed(endpoint@),
{
    let mut r: Vec<Update> = Vec::new();
    r.push(
        Update::Count {
            name: "proxy_upstream_errors_total".to_owned(),
            labels: label("endpoint", endpoint.to_owned()),
            by: 1,
        },
    );
    assert(updates(r@) == upstream_failed(endpoint@));
    r
}

/// What is measured when an upstream answered.
pub fn upstream_latency(endpoint: &str) -> (r: Vec<Update>)
    ensures
        updates(r@) == upstream_answered(endpoint@),
{
    let mut r: Vec<Update> = Vec::new();
    r.push(
        Update::Time {
            name: "proxy_upstream_latency_seconds".to_owned(),
            labels: label("endpoint", endpoint.to_owned()),
        },
    );
    assert(updates(r@) == upstream_answered(endpoint@));
    r
}

} // verus!

//! What the bridge measures.

use crate::text;
use vstd::prelude::*;
use vstd::string::*;

verus! {

/// A change of a metric.
#[derive(Debug)]
pub enum MetricUpdate {
    /// A counter goes up by one.
    Count { name: String, labels: Vec<(String, String)> },
    /// A gauge goes up by one.
    GaugeUp { name: String },
    /// A gauge goes down by one.
    GaugeDown { name: String },
    /// A gauge is set.
    GaugeSet { name: String, value: usize },
    /// A number is recorded.
    RecordNumber { name: String, value: usize },
    /// A duration is recorded, in nanoseconds.
    RecordDuration { name: String, labels: Vec<(String, String)>, nanos: u128 },
}

/// What a [`MetricUpdate`] says.
pub enum MetricView {
    Count { name: Seq<char>, labels: Seq<(Seq<char>, Seq<char>)> },
    GaugeUp { name: Seq<char> },
    GaugeDown { name: Seq<char> },
    GaugeSet { name: Seq<char>, value: usize },
    RecordNumber { name: Seq<char>, value: usize },
    RecordDuration { name: Seq<char>, labels: Seq<(Seq<char>, Seq<char>)>, nanos: u128 },
}

/// What some labels say.
pub open spec fn label_views(labels: Seq<(String, String)>) -> Seq<(Seq<char>, Seq<char>)> {
    labels.map_values(|l: (String, String)| (l.0@, l.1@))
}

impl View for MetricUpdate {
    type V = MetricView;

    open spec fn view(&self) -> MetricView {
        match self {
            MetricUpdate::Count { name, labels } => MetricView::Count {
                name: name@,
                labels: label_views(labels@),
            },
            MetricUpdate::GaugeUp { name } => MetricView::GaugeUp { name: name@ },
            MetricUpdate::GaugeDown { name } => MetricView::GaugeDown { name: name@ },
            MetricUpdate::GaugeSet { name, value } => MetricView::GaugeSet {
                name: name@,
                value: *value,
            },
            MetricUpdate::RecordNumber { name, value } => MetricView::RecordNumber {
                name: name@,
                value: *value,
            },
            MetricUpdate::RecordDuration { name, labels, nanos } => MetricView::RecordDuration {
                name: name@,
                labels: label_views(labels@),
                nanos: *nanos,
            },
        }
    }
}

/// What some changes say.
pub open spec fn metric_views(updates: Seq<MetricUpdate>) -> Seq<MetricView> {
    updates.map_values(|u: MetricUpdate| u@)
}

/// Appends a change.
pub(crate) fn push_update(updates: &mut Vec<MetricUpdate>, update: MetricUpdate)
    ensures
        metric_views(final(updates)@) == metric_views(old(updates)@).push(update@),
{
    updates.push(update);
    assert(metric_views(updates@) =~= metric_views(old(updates)@).push(update@));
}

/// The labels of an HTTP request.
pub open spec fn request_labels(method: Seq<char>, path: Seq<char>, status: Seq<char>) -> Seq<
    (Seq<char>, Seq<char>),
> {
    seq![("method"@, method), ("path"@, path), ("status"@, status)]
}

/// The labels of an HTTP request.
fn labels_of(method: String, path: String, status: String) -> (r: Vec<(String, String)>)
    ensures
        label_views(r@) == request_labels(method@, path@, status@),
{
    let mut r: Vec<(String, String)> = Vec::new();
    r.push(("method".to_owned(), method));
    r.push(("path".to_owned(), path));
    r.push(("status".to_owned(), status));
    assert(label_views(r@) =~= request_labels(method@, path@, status@));
    r
}

/// Counts an HTTP request.
pub fn count_http_request(
    method: String,
    path: String,
    status: String,
    updates: &mut Vec<MetricUpdate>,
)
    ensures
        metric_views(final(updates)@) == metric_views(old(updates)@).push(
            MetricView::Count {
                name: "http_requests_total"@,
                labels: request_labels(method@, path@, status@),
            },
        ),
{
    let labels: Vec<(String, String)> = labels_of(method, path, status);
    push_update(updates, MetricUpdate::Count { name: "http_requests_total".to_owned(), labels });
}

/// The path under which a request is counted: that of the route that it
/// matched.
pub open spec fn counted_path(matched_path: Option<String>) -> Seq<char> {
    match matched_path {
        Some(path) => path@,
        None => "invalid"@,
    }
}

/// Counts an HTTP request that was answered, and records how long that took.
pub fn http_metrics_middleware(
    method: String,
    matched_path: Option<String>,
    status: u16,
    nanos: u128,
    updates: &mut Vec<MetricUpdate>,
)
    ensures
        ({
            let labels = request_labels(
                method@,
                counted_path(matched_path),
                text::decimal(status as nat),
            );
            metric_views(final(updates)@) == metric_views(old(updates)@).push(
                MetricView::Count { name: "http_requests_total"@, labels },
            ).push(
                MetricView::RecordDuration {
                    name: "http_requests_duration_seconds"@,
                    labels,
                    nanos,
                },
            )
        }),
{
    let path: String = match matched_path {
        Some(path) => path,
        None => "invalid".to_owned(),
    };
    let status: String = text::decimal_text(status as u64);
    count_http_request(method.clone(), path.clone(), status.clone(), updates);
    let labels: Vec<(String, String)> = labels_of(method, path, status);
    push_update(
        updates,
        MetricUpdate::RecordDuration {
            name: "http_requests_duration_seconds".to_owned(),
            labels,
            nanos,
        },
    );
}

/// How far the changes move a gauge that is not set.
pub open spec fn gauge_change(updates: Seq<MetricView>, gauge: Seq<char>) -> int
    decreases updates.len(),
{
    if updates.len() == 0 {
        0
    } else {
        gauge_change(updates.drop_last(), gauge) + match updates.last() {
            MetricView::GaugeUp { name } => if name == gauge {
                1int
            } else {
                0
            },
            MetricView::GaugeDown { name } => if name == gauge {
                -1
            } else {
                0
            },
            _ => 0,
        }
    }
}

/// One more change moves a gauge by what that change says.
pub proof fn lemma_gauge_push(updates: Seq<MetricView>, update: MetricView, gauge: Seq<char>)
    ensures
        gauge_change(updates.push(update), gauge) == gauge_change(updates, gauge) + match update {
            MetricView::GaugeUp { name } => if name == gauge {
                1int
            } else {
                0
            },
            MetricView::GaugeDown { name } => if name == gauge {
                -1
            } else {
                0
            },
            _ => 0,
        },
{
    assert(updates.push(update).drop_last() =~= updates);
}

/// A request is counted by its method, the path of its route and its status, in
/// this order.
pub proof fn law_labels_of_a_request(method: Seq<char>, path: Seq<char>, status: Seq<char>)
    ensures
        request_labels(method, path, status).len() == 3,
        request_labels(method, path, status)[0] == ("method"@, method),
        request_labels(method, path, status)[1] == ("path"@, path),
        request_labels(method, path, status)[2] == ("status"@, status),
{
}

/// A request that matched a route is counted under the route's path, and one
/// that matched none as `invalid`.
pub proof fn law_counted_path(path: String)
    ensures
        counted_path(Some(path)) == path@,
        counted_path(None) == "invalid"@,
{
}

/// What some changes say is what each of them says, in order, and what some
/// labels say is what each of them holds.
pub proof fn law_metric_views(updates: Seq<MetricUpdate>, labels: Seq<(String, String)>)
    ensures
        metric_views(updates).len() == updates.len(),
        forall|i: int| 0 <= i < updates.len() ==> #[trigger] metric_views(updates)[i] == updates[i]@,
        label_views(labels).len() == labels.len(),
        forall|i: int|
            0 <= i < labels.len() ==> #[trigger] label_views(labels)[i] == (
                labels[i].0@,
                labels[i].1@,
            ),
{
}

/// What a change of a metric says is what it holds.
pub proof fn law_view_of_a_change(
    name: String,
    labels: Vec<(String, String)>,
    value: usize,
    nanos: u128,
)
    ensures
        (MetricUpdate::Count { name, labels })@ == (MetricView::Count {
            name: name@,
            labels: label_views(labels@),
        }),
        (MetricUpdate::GaugeUp { name })@ == (MetricView::GaugeUp { name: name@ }),
        (MetricUpdate::GaugeDown { name })@ == (MetricView::GaugeDown { name: name@ }),
        (MetricUpdate::GaugeSet { name, value })@ == (MetricView::GaugeSet { name: name@, value }),
        (MetricUpdate::RecordNumber { name, value })@ == (MetricView::RecordNumber {
            name: name@,
            value,
        }),
        (MetricUpdate::RecordDuration { name, labels, nanos })@ == (MetricView::RecordDuration {
            name: name@,
            labels: label_views(labels@),
            nanos,
        }),
{
}

} // verus!

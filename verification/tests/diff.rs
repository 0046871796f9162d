use boast::diff::{compute, describe_change, render, Diff};
use boast::model::{Category, FetchResult, Metric, MetricValue, Outcome, Real, Snapshot, Timestamp, Window};

fn at(secs: i128) -> Timestamp {
    Timestamp { unix_nanos: secs * 1_000_000_000, offset_secs: 0 }
}

fn real_value(x: f64) -> MetricValue {
    MetricValue::Real(Real { bits: x.to_bits(), shown: format!("{x:.2}") })
}

fn snapshot_at(secs: i128, results: Vec<FetchResult>) -> Snapshot {
    let identities = results.iter().map(|r| r.identity.clone()).collect::<Vec<_>>();
    Snapshot {
        schema_version: 1,
        tool: "boast".into(),
        tool_version: "0.1.0".into(),
        created_at: at(secs),
        identities,
        results,
    }
}

fn metric(name: &str, value: MetricValue, window: Window) -> Metric {
    Metric {
        name: name.into(),
        category: Category::Citations,
        value,
        window,
        provider: "openalex".into(),
        identity: "doi:10.1/x".into(),
        as_of: at(0),
        source: "https://api.openalex.org/works/doi:10.1/x".into(),
        note: None,
    }
}

fn values_result(metrics: Vec<Metric>) -> FetchResult {
    FetchResult {
        provider: metrics[0].provider.clone(),
        identity: metrics[0].identity.clone(),
        category: metrics[0].category,
        outcome: Outcome::Values { metrics, metadata: None },
    }
}

fn render_plain(old: &Snapshot, new: &Snapshot, d: &Diff) -> String {
    let deltas = vec![String::new(); d.changed.len()];
    render(old, new, d, &deltas)
}

#[test]
fn matched_metrics_with_equal_windows_are_changed() {
    let old = snapshot_at(0, vec![values_result(vec![metric("citations", MetricValue::Count(1421), Window::Cumulative)])]);
    let new = snapshot_at(100, vec![values_result(vec![metric("citations", MetricValue::Count(1450), Window::Cumulative)])]);

    let diff = compute(&old, &new);
    assert_eq!(diff.changed.len(), 1);
    let c = &diff.changed[0];
    assert_eq!(c.old_value, MetricValue::Count(1421));
    assert_eq!(c.new_value, MetricValue::Count(1450));
    assert_eq!(c.provider, "openalex");
    assert_eq!(c.identity, "doi:10.1/x");
    assert!(diff.added.is_empty());
    assert!(diff.removed.is_empty());
    assert!(diff.window_changed.is_empty());
    assert!(diff.inconclusive.is_empty());
}

#[test]
fn unchanged_values_are_still_reported_not_silently_dropped() {
    let m = metric("citations", MetricValue::Count(1421), Window::Cumulative);
    let old = snapshot_at(0, vec![values_result(vec![m.clone()])]);
    let new = snapshot_at(100, vec![values_result(vec![m])]);

    let diff = compute(&old, &new);
    assert_eq!(diff.changed.len(), 1);
    assert_eq!(diff.changed[0].old_value, diff.changed[0].new_value);
}

#[test]
fn different_named_metrics_are_never_conflated() {
    let old = snapshot_at(0, vec![values_result(vec![metric("citations", MetricValue::Count(1421), Window::Cumulative)])]);
    let new = snapshot_at(100, vec![values_result(vec![metric("fwci", real_value(2.0), Window::Cumulative)])]);

    let diff = compute(&old, &new);
    assert!(diff.changed.is_empty());
    // Neither Snapshot confirmed "citations" absent for this identity, so it
    // is inconclusive, not removed.
    assert_eq!(diff.inconclusive.len(), 1);
    assert_eq!(diff.inconclusive[0].name, "citations");
    assert_eq!(diff.added.len(), 1);
    assert_eq!(diff.added[0].name, "fwci");
}

#[test]
fn different_identities_are_never_conflated() {
    let mut a = metric("citations", MetricValue::Count(1421), Window::Cumulative);
    a.identity = "doi:10.1/x".into();
    let mut b = metric("citations", MetricValue::Count(900), Window::Cumulative);
    b.identity = "doi:10.2/y".into();

    let old = snapshot_at(0, vec![values_result(vec![a])]);
    let new = snapshot_at(100, vec![values_result(vec![b])]);

    let diff = compute(&old, &new);
    assert!(diff.changed.is_empty());
    assert_eq!(diff.inconclusive.len(), 1);
    assert_eq!(diff.added.len(), 1);
}

#[test]
fn a_window_mismatch_is_reported_explicitly_not_diffed() {
    let old = snapshot_at(0, vec![values_result(vec![metric("downloads", MetricValue::Count(100), Window::Cumulative)])]);
    let new = snapshot_at(
        100,
        vec![values_result(vec![metric("downloads", MetricValue::Count(30), Window::Trailing { days: 30 })])],
    );

    let diff = compute(&old, &new);
    assert!(diff.changed.is_empty());
    assert_eq!(diff.window_changed.len(), 1);
    assert_eq!(diff.window_changed[0].old_window, Window::Cumulative);
    assert_eq!(diff.window_changed[0].new_window, Window::Trailing { days: 30 });
}

#[test]
fn a_metric_only_in_new_is_added() {
    let old = snapshot_at(0, vec![]);
    let new = snapshot_at(100, vec![values_result(vec![metric("citations", MetricValue::Count(5), Window::Cumulative)])]);
    let diff = compute(&old, &new);
    assert_eq!(diff.added.len(), 1);
    assert!(diff.removed.is_empty());
}

#[test]
fn a_metric_missing_from_new_is_removed_when_new_has_no_failure_for_it() {
    let old = snapshot_at(0, vec![values_result(vec![metric("citations", MetricValue::Count(5), Window::Cumulative)])]);
    // The new Snapshot ran and found nothing: a confirmed disappearance.
    let new = snapshot_at(
        100,
        vec![FetchResult {
            provider: "openalex".into(),
            identity: "doi:10.1/x".into(),
            category: Category::Citations,
            outcome: Outcome::NotApplicable { note: "not found in OpenAlex".into() },
        }],
    );

    let diff = compute(&old, &new);
    assert_eq!(diff.removed.len(), 1);
    assert!(diff.inconclusive.is_empty());
}

#[test]
fn a_metric_missing_because_the_new_fetch_failed_is_inconclusive_not_removed() {
    let old = snapshot_at(0, vec![values_result(vec![metric("citations", MetricValue::Count(5), Window::Cumulative)])]);
    let new = snapshot_at(
        100,
        vec![FetchResult {
            provider: "openalex".into(),
            identity: "doi:10.1/x".into(),
            category: Category::Citations,
            outcome: Outcome::Failed { error: "rate limited (429)".into() },
        }],
    );

    let diff = compute(&old, &new);
    assert!(diff.removed.is_empty());
    assert_eq!(diff.inconclusive.len(), 1);
    assert_eq!(diff.inconclusive[0].name, "citations");
}

#[test]
fn a_provider_never_attempted_in_new_is_inconclusive_not_removed() {
    let old = snapshot_at(0, vec![values_result(vec![metric("citations", MetricValue::Count(5), Window::Cumulative)])]);
    let new = snapshot_at(100, vec![]);

    let diff = compute(&old, &new);
    assert!(diff.removed.is_empty(), "must never assume absence just because it wasn't checked");
    assert_eq!(diff.inconclusive.len(), 1);
    assert_eq!(diff.inconclusive[0].name, "citations");
}

#[test]
fn render_shows_a_signed_delta_and_groups_by_category() {
    let old = snapshot_at(0, vec![values_result(vec![metric("citations", MetricValue::Count(1421), Window::Cumulative)])]);
    let new = snapshot_at(100, vec![values_result(vec![metric("citations", MetricValue::Count(1450), Window::Cumulative)])]);
    let d = compute(&old, &new);
    let out = render_plain(&old, &new, &d);

    assert!(out.contains("━━ doi:10.1/x ━━"));
    assert!(out.contains("── Citations ──"));
    assert!(out.contains("1421 → 1450 (+29)"));
}

#[test]
fn render_shows_a_negative_delta_without_hiding_a_regression() {
    let old = snapshot_at(0, vec![values_result(vec![metric("citations", MetricValue::Count(100), Window::Cumulative)])]);
    let new = snapshot_at(100, vec![values_result(vec![metric("citations", MetricValue::Count(90), Window::Cumulative)])]);
    let d = compute(&old, &new);
    let out = render_plain(&old, &new, &d);
    assert!(out.contains("100 → 90 (-10)"));
}

#[test]
fn render_lists_added_removed_and_inconclusive_sections() {
    let old = snapshot_at(
        0,
        vec![
            values_result(vec![metric("citations", MetricValue::Count(5), Window::Cumulative)]),
            FetchResult {
                provider: "dimensions".into(),
                identity: "doi:10.1/x".into(),
                category: Category::Citations,
                outcome: Outcome::Failed { error: "timeout".into() },
            },
        ],
    );
    let new = snapshot_at(
        100,
        vec![
            FetchResult {
                provider: "openalex".into(),
                identity: "doi:10.1/x".into(),
                category: Category::Citations,
                outcome: Outcome::Failed { error: "rate limited (429)".into() },
            },
            values_result(vec![Metric {
                provider: "dimensions".into(),
                ..metric("citations", MetricValue::Count(9), Window::Cumulative)
            }]),
        ],
    );

    let d = compute(&old, &new);
    let out = render_plain(&old, &new, &d);
    assert!(out.contains("Added (no earlier data point)"));
    assert!(out.contains("dimensions"));
    assert!(out.contains("Inconclusive"));
    assert!(out.contains("openalex"));
    assert!(!out.contains("Removed (no longer present)"));
}

#[test]
fn render_flags_a_window_change_without_diffing_it() {
    let old = snapshot_at(0, vec![values_result(vec![metric("downloads", MetricValue::Count(100), Window::Cumulative)])]);
    let new = snapshot_at(
        100,
        vec![values_result(vec![metric("downloads", MetricValue::Count(30), Window::Trailing { days: 30 })])],
    );
    let d = compute(&old, &new);
    let out = render_plain(&old, &new, &d);
    assert!(out.contains("Window changed"));
    assert!(out.contains("all-time → last 30 days"));
    assert!(!out.contains("── Citations ──"));
}

#[test]
fn render_carries_a_providers_notice_from_either_snapshot() {
    let notice = "x".repeat(120);
    let old = snapshot_at(
        0,
        vec![values_result(vec![Metric {
            note: Some(notice.clone()),
            provider: "dimensions".into(),
            ..metric("citations", MetricValue::Count(5), Window::Cumulative)
        }])],
    );
    let new = snapshot_at(
        100,
        vec![values_result(vec![Metric {
            note: Some(notice.clone()),
            provider: "dimensions".into(),
            ..metric("citations", MetricValue::Count(9), Window::Cumulative)
        }])],
    );
    let d = compute(&old, &new);
    let out = render_plain(&old, &new, &d);
    assert!(out.contains("── Notices ──"));
    // Shared by both Snapshots: it must still appear once, not twice.
    assert_eq!(out.matches(notice.as_str()).count(), 1);
}

#[test]
fn real_changes_show_both_values_and_the_given_delta() {
    assert_eq!(describe_change(&real_value(1.5), &real_value(2.25), "+0.75"), "1.50 → 2.25 (+0.75)");
    assert_eq!(describe_change(&MetricValue::Count(7), &MetricValue::Count(7), ""), "7 → 7 (+0)");
    assert_eq!(
        describe_change(&MetricValue::Text("closed".into()), &MetricValue::Text("gold".into()), ""),
        "closed → gold"
    );
    assert_eq!(
        describe_change(&MetricValue::Flag(true), &MetricValue::Flag(true), ""),
        "yes (unchanged)"
    );
}

#[test]
fn render_shows_a_real_delta_as_given() {
    let old = snapshot_at(0, vec![values_result(vec![metric("fwci", real_value(1.5), Window::Cumulative)])]);
    let new = snapshot_at(100, vec![values_result(vec![metric("fwci", real_value(2.25), Window::Cumulative)])]);
    let d = compute(&old, &new);
    let out = render(&old, &new, &d, &vec!["+0.75".to_string()]);
    assert!(out.contains("1.50 → 2.25 (+0.75)"));
}

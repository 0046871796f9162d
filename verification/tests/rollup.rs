use boast::model::{Category, FetchResult, Metric, MetricValue, Outcome, Real, Snapshot, Timestamp, Window};
use boast::report::render_terminal;
use boast::rollup::{compute, counts_as_download, Rollup};

fn metric(provider: &str, identity: &str, value: u64, window: Window) -> Metric {
    Metric {
        name: "downloads".into(),
        category: Category::Downloads,
        value: MetricValue::Count(value),
        window,
        provider: provider.into(),
        identity: identity.into(),
        as_of: Timestamp { unix_nanos: 0, offset_secs: 0 },
        source: format!("https://example.com/{provider}"),
        note: None,
    }
}

fn rollups_of(metrics: &[Metric]) -> Vec<Rollup> {
    let refs: Vec<&Metric> = metrics.iter().collect();
    compute(&refs)
}

#[test]
fn sums_two_metrics_sharing_a_window() {
    let metrics = [
        metric("crates.io", "crates:boast", 100, Window::Cumulative),
        metric("bioconda", "conda:bioconda/boast", 50, Window::Cumulative),
    ];
    let rollups = rollups_of(&metrics);
    assert_eq!(rollups.len(), 1);
    assert_eq!(rollups[0].total, 150);
    assert_eq!(rollups[0].window, Window::Cumulative);
    assert_eq!(rollups[0].channels.len(), 2);
    assert_eq!(rollups[0].channels[0].provider, "crates.io");
    assert_eq!(rollups[0].channels[1].provider, "bioconda");
}

#[test]
fn never_mixes_incompatible_windows() {
    // Both are "downloads", but their Windows differ.
    let metrics = [
        metric("crates.io", "crates:boast", 100, Window::Cumulative),
        metric("homebrew", "homebrew:boast", 50, Window::Trailing { days: 30 }),
    ];
    assert_eq!(rollups_of(&metrics), Vec::new());
}

#[test]
fn different_trailing_day_counts_are_incompatible() {
    let metrics = [
        metric("homebrew", "homebrew:boast", 50, Window::Trailing { days: 90 }),
        metric("pypi", "pypi:boast", 100, Window::Trailing { days: 30 }),
    ];
    assert_eq!(rollups_of(&metrics), Vec::new());
}

#[test]
fn a_single_contributing_metric_is_not_rolled_up() {
    let metrics = [metric("crates.io", "crates:boast", 100, Window::Cumulative)];
    assert_eq!(rollups_of(&metrics), Vec::new());
}

#[test]
fn separate_rollups_form_per_compatible_window() {
    let metrics = [
        metric("crates.io", "crates:boast", 100, Window::Cumulative),
        metric("bioconda", "conda:bioconda/boast", 50, Window::Cumulative),
        metric("homebrew", "homebrew:boast", 30, Window::Trailing { days: 30 }),
        metric("pypi", "pypi:boast", 1000, Window::Trailing { days: 30 }),
    ];
    let rollups = rollups_of(&metrics);
    assert_eq!(rollups.len(), 2);
    assert_eq!(rollups[0].window, Window::Cumulative);
    assert_eq!(rollups[0].total, 150);
    assert_eq!(rollups[1].window, Window::Trailing { days: 30 });
    assert_eq!(rollups[1].total, 1030);
}

#[test]
fn three_or_more_compatible_metrics_all_contribute() {
    let metrics = [
        metric("crates.io", "crates:boast", 100, Window::Cumulative),
        metric("bioconda", "conda:bioconda/boast", 50, Window::Cumulative),
        metric("conda-forge", "conda:conda-forge/boast", 25, Window::Cumulative),
    ];
    let rollups = rollups_of(&metrics);
    assert_eq!(rollups.len(), 1);
    assert_eq!(rollups[0].total, 175);
    assert_eq!(rollups[0].channels.len(), 3);
}

#[test]
fn non_count_values_never_silently_contribute() {
    let mut real_valued = metric("openalex", "doi:10.1/x", 0, Window::Cumulative);
    real_valued.value = MetricValue::Real(Real { bits: 2.5f64.to_bits(), shown: "2.50".into() });
    let metrics = [metric("crates.io", "crates:boast", 100, Window::Cumulative), real_valued];
    // Only one Metric with a Count value shares the window, so nothing rolls up.
    assert_eq!(rollups_of(&metrics), Vec::new());
}

fn code_metric(name: &str, provider: &str, value: u64, window: Window) -> Metric {
    Metric {
        name: name.into(),
        category: Category::Code,
        value: MetricValue::Count(value),
        window,
        provider: provider.into(),
        identity: "github:owner/name".into(),
        as_of: Timestamp { unix_nanos: 0, offset_secs: 0 },
        source: "https://api.github.com/repos/owner/name/releases".into(),
        note: None,
    }
}

#[test]
fn github_release_downloads_counts_as_a_download_despite_its_code_category() {
    let m = code_metric("release_downloads", "github", 500, Window::Cumulative);
    assert!(counts_as_download(&m));
}

#[test]
fn a_code_metric_that_isnt_release_downloads_does_not_count() {
    let stars = code_metric("stars", "github", 500, Window::Cumulative);
    assert!(!counts_as_download(&stars));
    // The same name on another Provider does not qualify.
    let same_name_elsewhere = code_metric("release_downloads", "example", 500, Window::Cumulative);
    assert!(!counts_as_download(&same_name_elsewhere));
}

#[test]
fn every_downloads_category_metric_counts() {
    let m = metric("crates.io", "crates:boast", 100, Window::Cumulative);
    assert!(counts_as_download(&m));
}

#[test]
fn release_downloads_joins_the_rollup_with_other_download_channels() {
    let metrics = [
        metric("crates.io", "crates:boast", 100, Window::Cumulative),
        code_metric("release_downloads", "github", 50, Window::Cumulative),
    ];
    let eligible: Vec<&Metric> = metrics.iter().filter(|m| counts_as_download(m)).collect();
    let rollups = compute(&eligible);
    assert_eq!(rollups.len(), 1);
    assert_eq!(rollups[0].total, 150);
}

fn package_result(provider: &str, identity: &str, value: u64) -> FetchResult {
    FetchResult {
        provider: provider.into(),
        identity: identity.into(),
        category: Category::Downloads,
        outcome: Outcome::Values {
            metrics: vec![metric(provider, identity, value, Window::Cumulative)],
            metadata: None,
        },
    }
}

fn snapshot_of(results: Vec<FetchResult>) -> Snapshot {
    Snapshot {
        schema_version: 1,
        tool: "boast".into(),
        tool_version: "0.3.0".into(),
        created_at: Timestamp { unix_nanos: 0, offset_secs: 0 },
        identities: results.iter().map(|r| r.identity.clone()).collect(),
        results,
    }
}

#[test]
fn rollup_sums_two_channels_sharing_a_cumulative_window() {
    let snapshot = snapshot_of(vec![
        package_result("crates.io", "crates:boast", 842617),
        package_result("bioconda", "conda:bioconda/samtools", 8897787),
    ]);
    assert!(!snapshot.has_failures());

    let report = render_terminal(&snapshot);
    // Both individual channel figures still show under their own identity.
    assert!(report.contains("842617"));
    assert!(report.contains("8897787"));
    // Plus a labelled, derived Rollup naming both channels and their sum.
    assert!(report.contains("Downloads Rollup"));
    assert!(report.contains("derived"));
    assert!(report.contains("9740404"));
    assert!(report.contains("crates:boast (842617)"));
    assert!(report.contains("conda:bioconda/samtools (8897787)"));
}

#[test]
fn no_rollup_for_a_single_package_identity() {
    let snapshot = snapshot_of(vec![package_result("crates.io", "crates:boast", 842617)]);
    assert!(!snapshot.has_failures());
    let report = render_terminal(&snapshot);
    assert!(report.contains("842617"));
    assert!(!report.contains("Rollup"));
}

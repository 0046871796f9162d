//! The decisions each Provider makes on a reply: how a status or a transport
//! failure settles, and what a readable reply's fields become.

use boast::identity::{Identity, PackageId, PaperId, Registry, RepoId};
use boast::model::{Category, Metric, MetricValue, Outcome, Real, Timestamp, Window};
use boast::provider::{classify_status, Provider};
use boast::providers::altmetric::{Altmetric, AltmetricResponse};
use boast::providers::bioconda::{AnacondaPackage, Bioconda};
use boast::providers::crates_io::CratesIo;
use boast::providers::crossref::{Crossref, CrossrefAuthor, CrossrefWork};
use boast::providers::dimensions::{Dimensions, DimensionsMetrics};
use boast::providers::docker_hub::{DockerHub, DockerRepository};
use boast::providers::europe_pmc::{EuropePmc, EuropePmcResponse};
use boast::providers::github::{GhRepo, GitHub, RepoAge};
use boast::providers::homebrew::{BrewAnalytics, BrewFormula, Homebrew};
use boast::providers::openalex::{OaPercentile, OaWork, OpenAlex};
use boast::providers::pypi::{Pypi, RecentDownloads};
use boast::providers::quay::{Quay, QuayRepository};
use boast::providers::wikipedia::{SearchInfo, Wikipedia};
use boast::providers::{default_providers, render_providers};
use boast::transport::{HttpResponse, TransportError};

fn at() -> Timestamp {
    Timestamp { unix_nanos: 0, offset_secs: 0 }
}

fn reply(status: u16, body: &str) -> Result<HttpResponse, TransportError> {
    Ok(HttpResponse { status, body: body.into(), url: "u".into(), headers: vec![] })
}

fn real_value(x: f64) -> Real {
    Real { bits: x.to_bits(), shown: format!("{x:.2}") }
}

fn values(o: Outcome) -> Vec<Metric> {
    match o {
        Outcome::Values { metrics, .. } => metrics,
        other => panic!("expected Values, got {other:?}"),
    }
}

fn failed_with(r: Result<HttpResponse, Outcome>) -> String {
    match r {
        Err(Outcome::Failed { error }) => error,
        other => panic!("expected Failed, got {other:?}"),
    }
}

fn not_applicable_with(r: Result<HttpResponse, Outcome>) -> String {
    match r {
        Err(Outcome::NotApplicable { note }) => note,
        other => panic!("expected NotApplicable, got {other:?}"),
    }
}

fn doi() -> Identity {
    Identity::Paper(PaperId::Doi("10.1371/journal.pbio.1002195".into()))
}

fn package(registry: Registry, name: &str) -> Identity {
    Identity::Package(PackageId { registry, name: name.into() })
}

// -- shared status templates ----------------------------------------------

#[test]
fn ok_status_yields_none() {
    assert_eq!(classify_status(200, "Example", "not found"), None);
}

#[test]
fn not_found_uses_the_given_wording_verbatim() {
    assert_eq!(
        classify_status(404, "Example", "repository not found on Example"),
        Some(Outcome::NotApplicable { note: "repository not found on Example".into() })
    );
}

#[test]
fn rate_limit_server_error_and_unexpected_status_use_shared_templates() {
    assert_eq!(
        classify_status(429, "Example", "not found"),
        Some(Outcome::Failed { error: "rate limited by Example (429)".into() })
    );
    assert_eq!(
        classify_status(503, "Example", "not found"),
        Some(Outcome::Failed { error: "Example server error (503)".into() })
    );
    assert_eq!(
        classify_status(599, "Example", "not found"),
        Some(Outcome::Failed { error: "Example server error (599)".into() })
    );
    assert_eq!(
        classify_status(301, "Example", "not found"),
        Some(Outcome::Failed { error: "unexpected Example status (301)".into() })
    );
}

// -- the providers table ----------------------------------------------------

#[test]
fn rows_are_grouped_in_the_shared_category_display_order() {
    let out = render_providers(&default_providers(None, None), &vec![]);
    let code = out.find("github").unwrap();
    let downloads = out.find("crates.io").unwrap();
    let citations = out.find("openalex").unwrap();
    let attention = out.find("wikipedia").unwrap();
    assert!(code < downloads);
    assert!(downloads < citations);
    assert!(citations < attention);
}

#[test]
fn keyless_optional_and_required_are_clearly_distinguished() {
    let out = render_providers(&default_providers(None, None), &vec!["GITHUB_TOKEN".to_string()]);
    let row = |needle: &str| out.lines().find(|l| l.contains(needle)).unwrap().to_string();
    assert!(row("openalex").contains("none"));
    assert!(row("github").contains("optional: GITHUB_TOKEN (set)"));
    assert!(row("altmetric").contains("required: ALTMETRIC_KEY (not set)"));
}

#[test]
fn every_row_is_marked_default_enabled() {
    let providers = default_providers(None, None);
    let out = render_providers(&providers, &vec![]);
    for p in &providers {
        assert!(out.lines().find(|l| l.contains(p.name())).unwrap().contains("yes"));
    }
}

// -- packages ---------------------------------------------------------------

#[test]
fn bioconda_nonexistent_package_is_not_applicable_not_zero() {
    let note = not_applicable_with(Bioconda::settle_reply(reply(404, r#"{"error":"could not be found"}"#)));
    assert_eq!(note, "not found on Bioconda");
}

#[test]
fn bioconda_rate_limit_and_server_error_are_failed() {
    assert_eq!(failed_with(Bioconda::settle_reply(reply(429, ""))), "rate limited by Bioconda (429)");
    assert_eq!(failed_with(Bioconda::settle_reply(reply(503, ""))), "Bioconda server error (503)");
}

#[test]
fn bioconda_transport_error_is_failed() {
    assert_eq!(failed_with(Bioconda::settle_reply(Err(TransportError::ConnectionFailed))), "connection failed");
}

#[test]
fn bioconda_counts_downloads_and_never_invents_zero() {
    let url = Bioconda::request_url(&package(Registry::Bioconda, "samtools")).unwrap();
    assert_eq!(url, "https://api.anaconda.org/package/bioconda/samtools");
    let ms = values(Bioconda::classify(&AnacondaPackage { ndownloads: Some(8_897_787) }, &url, "bioconda:samtools", at()));
    assert_eq!(ms.len(), 1);
    assert_eq!(ms[0].value, MetricValue::Count(8_897_787));
    assert_eq!(ms[0].provider, "bioconda");
    assert_eq!(ms[0].identity, "bioconda:samtools");
    assert!(matches!(
        Bioconda::classify(&AnacondaPackage { ndownloads: None }, &url, "bioconda:samtools", at()),
        Outcome::NotApplicable { .. }
    ));
}

#[test]
fn nonexistent_crate_is_not_applicable_not_zero() {
    let note = not_applicable_with(CratesIo::settle_reply(reply(404, r#"{"errors":[{"detail":"Not Found"}]}"#)));
    assert_eq!(note, "not found on crates.io");
}

#[test]
fn crates_io_rate_limit_and_server_error_are_failed() {
    assert_eq!(failed_with(CratesIo::settle_reply(reply(429, ""))), "rate limited by crates.io (429)");
    assert_eq!(failed_with(CratesIo::settle_reply(reply(503, ""))), "crates.io server error (503)");
}

#[test]
fn crates_io_transport_error_is_failed() {
    assert_eq!(failed_with(CratesIo::settle_reply(Err(TransportError::ConnectionFailed))), "connection failed");
}

#[test]
fn pypi_counts_the_last_month_as_a_trailing_window() {
    let url = Pypi::request_url(&package(Registry::Pypi, "rasusa")).unwrap();
    assert_eq!(url, "https://pypistats.org/api/packages/rasusa/recent");
    let ms = values(Pypi::classify(&RecentDownloads { last_month: Some(1234) }, &url, "pypi:rasusa", at()));
    assert_eq!(ms[0].value, MetricValue::Count(1234));
    assert_eq!(ms[0].window, Window::Trailing { days: 30 });
    assert!(ms[0].note.as_deref().unwrap().contains("last month"));
    assert!(matches!(
        Pypi::classify(&RecentDownloads { last_month: None }, &url, "pypi:rasusa", at()),
        Outcome::NotApplicable { .. }
    ));
}

#[test]
fn pypi_nonexistent_package_is_not_applicable_not_zero() {
    assert_eq!(not_applicable_with(Pypi::settle_reply(reply(404, ""))), "not found on PyPI");
}

#[test]
fn pypi_rate_limit_and_server_error_are_failed() {
    assert_eq!(failed_with(Pypi::settle_reply(reply(429, ""))), "rate limited by PyPI (429)");
    assert_eq!(failed_with(Pypi::settle_reply(reply(503, ""))), "PyPI server error (503)");
}

#[test]
fn pypi_transport_error_is_failed() {
    assert_eq!(failed_with(Pypi::settle_reply(Err(TransportError::Timeout))), "request timed out");
}

#[test]
fn a_missing_pull_count_is_not_applicable_never_zero() {
    assert!(matches!(
        DockerHub::classify(&DockerRepository { pull_count: None }, "u", "docker:biocontainers/samtools", at()),
        Outcome::NotApplicable { .. }
    ));
    let ms = values(DockerHub::classify(&DockerRepository { pull_count: Some(0) }, "u", "docker:biocontainers/samtools", at()));
    assert_eq!(ms[0].value, MetricValue::Count(0));
}

#[test]
fn an_unknown_image_is_not_applicable() {
    assert_eq!(not_applicable_with(DockerHub::settle_reply(reply(404, ""))), "not found on Docker Hub");
}

#[test]
fn docker_hub_every_metric_carries_the_pull_semantics_caveat() {
    let ms = values(DockerHub::classify(&DockerRepository { pull_count: Some(5) }, "u", "docker:a/b", at()));
    assert!(ms.iter().all(|m| m.note.as_deref().unwrap().contains("not installs by people")));
}

#[test]
fn docker_hub_a_transport_error_fails_rather_than_reporting_a_value() {
    assert_eq!(failed_with(DockerHub::settle_reply(Err(TransportError::ConnectionFailed))), "connection failed");
}

#[test]
fn a_docker_name_without_a_namespace_is_not_applicable() {
    match DockerHub::request_url(&package(Registry::Docker, "samtools")) {
        Err(Outcome::NotApplicable { note }) => assert!(note.contains("namespace/name")),
        other => panic!("expected NotApplicable, got {other:?}"),
    }
    assert_eq!(
        DockerHub::request_url(&package(Registry::Docker, "biocontainers/samtools")).unwrap(),
        "https://hub.docker.com/v2/repositories/biocontainers/samtools/"
    );
}

fn installs(periods: &[(&str, &[(&str, u64)])]) -> BrewFormula {
    BrewFormula {
        analytics: Some(BrewAnalytics {
            install: periods
                .iter()
                .map(|(p, counts)| (p.to_string(), counts.iter().map(|(n, c)| (n.to_string(), *c)).collect()))
                .collect(),
        }),
    }
}

#[test]
fn missing_period_is_omitted_never_zero() {
    let f = installs(&[("30d", &[("samtools", 10)]), ("365d", &[("samtools", 100)])]);
    let ms = values(Homebrew::classify(&f, "u", "homebrew:samtools", at(), "samtools"));
    let names: Vec<&str> = ms.iter().map(|m| m.name.as_str()).collect();
    assert_eq!(names, vec!["downloads_30d", "downloads_365d"]);
    assert_eq!(ms[0].window, Window::Trailing { days: 30 });
    assert_eq!(ms[1].window, Window::Trailing { days: 365 });
    assert_eq!(ms[1].value, MetricValue::Count(100));
}

#[test]
fn no_analytics_at_all_is_not_applicable_not_zero() {
    assert!(matches!(
        Homebrew::classify(&BrewFormula { analytics: None }, "u", "homebrew:x", at(), "x"),
        Outcome::NotApplicable { .. }
    ));
    let other_formula = installs(&[("30d", &[("other", 10)])]);
    assert!(matches!(
        Homebrew::classify(&other_formula, "u", "homebrew:x", at(), "x"),
        Outcome::NotApplicable { .. }
    ));
}

#[test]
fn nonexistent_formula_is_not_applicable_not_zero() {
    assert_eq!(not_applicable_with(Homebrew::settle_reply(reply(404, ""))), "not found on Homebrew");
}

#[test]
fn homebrew_rate_limit_and_server_error_are_failed() {
    assert_eq!(failed_with(Homebrew::settle_reply(reply(429, ""))), "rate limited by Homebrew (429)");
    assert_eq!(failed_with(Homebrew::settle_reply(reply(503, ""))), "Homebrew server error (503)");
}

#[test]
fn homebrew_transport_error_is_failed() {
    assert_eq!(failed_with(Homebrew::settle_reply(Err(TransportError::ConnectionFailed))), "connection failed");
}

#[test]
fn the_window_is_derived_from_the_series_never_hardcoded() {
    let ms = values(Quay::classify(&QuayRepository { stats: Some(vec![1, 2, 3]) }, "u", "quay:a/b", at()));
    assert_eq!(ms[0].window, Window::Trailing { days: 3 });
    assert_eq!(ms[0].value, MetricValue::Count(6));
}

#[test]
fn quay_every_metric_carries_the_pull_semantics_caveat() {
    let ms = values(Quay::classify(&QuayRepository { stats: Some(vec![4]) }, "u", "quay:a/b", at()));
    assert!(ms.iter().all(|m| m.note.as_deref().unwrap().contains("not an all-time total")));
}

#[test]
fn an_absent_or_empty_series_is_not_applicable_never_zero() {
    assert!(matches!(Quay::classify(&QuayRepository { stats: None }, "u", "quay:a/b", at()), Outcome::NotApplicable { .. }));
    assert!(matches!(
        Quay::classify(&QuayRepository { stats: Some(vec![]) }, "u", "quay:a/b", at()),
        Outcome::NotApplicable { .. }
    ));
}

#[test]
fn a_populated_series_of_zeroes_is_a_real_zero_not_not_applicable() {
    let ms = values(Quay::classify(&QuayRepository { stats: Some(vec![0, 0]) }, "u", "quay:a/b", at()));
    assert_eq!(ms[0].value, MetricValue::Count(0));
}

#[test]
fn an_unauthenticated_401_is_a_legitimate_absence_not_a_failure() {
    assert!(matches!(Quay::settle_reply(reply(401, "")), Err(Outcome::NotApplicable { .. })));
}

#[test]
fn a_404_is_also_not_applicable() {
    assert!(matches!(Quay::settle_reply(reply(404, "")), Err(Outcome::NotApplicable { .. })));
}

#[test]
fn quay_rate_limit_and_server_error_are_failed() {
    assert_eq!(failed_with(Quay::settle_reply(reply(429, ""))), "rate limited by Quay.io (429)");
    assert_eq!(failed_with(Quay::settle_reply(reply(503, ""))), "Quay.io server error (503)");
}

#[test]
fn requests_the_stats_series_without_the_tag_list() {
    let url = Quay::request_url(&package(Registry::Quay, "biocontainers/samtools")).unwrap();
    assert!(url.contains("includeStats=true"));
    assert!(url.contains("includeTags=false"));
}

// -- papers -----------------------------------------------------------------

#[test]
fn missing_doi_record_is_not_applicable_not_zero() {
    assert_eq!(not_applicable_with(Crossref::settle_reply(reply(404, "Resource not found."))), "not found in Crossref");
}

#[test]
fn crossref_server_error_and_transport_error_are_failed() {
    assert_eq!(failed_with(Crossref::settle_reply(reply(503, ""))), "Crossref server error (503)");
    assert_eq!(failed_with(Crossref::settle_reply(Err(TransportError::Timeout))), "request timed out");
}

#[test]
fn crossref_reads_metadata_and_its_citation_count() {
    let work = CrossrefWork {
        title: Some(vec!["Big Data: Astronomical or Genomical?".into()]),
        container_title: Some(vec!["PLOS Biology".into()]),
        author: Some(vec![
            CrossrefAuthor { given: Some("Zachary D.".into()), family: Some("Stephens".into()) },
            CrossrefAuthor { given: None, family: Some("Lee".into()) },
            CrossrefAuthor { given: None, family: None },
        ]),
        date_parts: Some(vec![vec![2015, 7, 7]]),
        is_referenced_by_count: Some(1161),
    };
    match Crossref::classify(&Some(work), "u", "doi:10.1371/journal.pbio.1002195", at()) {
        Outcome::Values { metrics, metadata } => {
            assert_eq!(metrics[0].name, "citations");
            assert_eq!(metrics[0].value, MetricValue::Count(1161));
            let md = metadata.unwrap();
            assert_eq!(md.title.as_deref(), Some("Big Data: Astronomical or Genomical?"));
            assert_eq!(md.container.as_deref(), Some("PLOS Biology"));
            assert_eq!(md.year, Some(2015));
            assert_eq!(md.authors, vec!["Zachary D. Stephens".to_string(), "Lee".to_string()]);
        }
        other => panic!("expected Values, got {other:?}"),
    }
    assert!(matches!(Crossref::classify(&None, "u", "doi:x", at()), Outcome::Failed { .. }));
}

#[test]
fn handles_null_fcr_and_rcr() {
    let f = DimensionsMetrics {
        times_cited: Some(964),
        field_citation_ratio: None,
        relative_citation_ratio: None,
        license: Some("terms apply".into()),
    };
    let ms = values(Dimensions::classify(&f, "u", "doi:10.1/x", at()));
    assert_eq!(ms.len(), 1);
    assert_eq!(ms[0].name, "citations");
    assert_eq!(ms[0].value, MetricValue::Count(964));
    assert_eq!(ms[0].note.as_deref(), Some("terms apply"));
}

#[test]
fn dimensions_reads_citations_fcr_and_rcr() {
    let f = DimensionsMetrics {
        times_cited: Some(1285),
        field_citation_ratio: Some(real_value(116.66)),
        relative_citation_ratio: Some(real_value(15.96)),
        license: None,
    };
    let ms = values(Dimensions::classify(&f, "u", "doi:10.1/x", at()));
    let names: Vec<&str> = ms.iter().map(|m| m.name.as_str()).collect();
    assert_eq!(names, vec!["citations", "fcr", "rcr"]);
    assert_eq!(ms[1].value, MetricValue::Real(real_value(116.66)));
    assert_eq!(ms[2].value.text(), "15.96");
}

#[test]
fn dimensions_not_found_is_not_applicable_not_zero() {
    assert_eq!(not_applicable_with(Dimensions::settle_reply(reply(404, ""))), "not found in Dimensions");
}

#[test]
fn dimensions_server_error_and_transport_error_are_failed() {
    assert_eq!(failed_with(Dimensions::settle_reply(reply(503, ""))), "Dimensions server error (503)");
    assert_eq!(failed_with(Dimensions::settle_reply(Err(TransportError::Timeout))), "request timed out");
}

#[test]
fn dimensions_malformed_body_is_failed() {
    assert!(matches!(Dimensions::malformed("expected value"), Outcome::Failed { error } if error == "unexpected Dimensions response: expected value"));
}

#[test]
fn works_from_a_pmid_and_encodes_the_space_in_its_query() {
    let pmid = Identity::Paper(PaperId::Pmid("26151137".into()));
    let url = EuropePmc::search_url(&pmid).unwrap();
    assert!(url.contains("EXT_ID:26151137+AND+SRC:MED"));
    assert!(!url.contains(' '));
}

#[test]
fn record_found_without_a_citation_count_is_not_applicable_not_zero() {
    let f = EuropePmcResponse { hit_count: 1, cited_by_counts: vec![None] };
    assert!(matches!(EuropePmc::classify(&f, "u", "doi:x", at()), Outcome::NotApplicable { .. }));
}

#[test]
fn zero_hit_count_is_not_applicable_not_zero() {
    let f = EuropePmcResponse { hit_count: 0, cited_by_counts: vec![] };
    assert!(matches!(EuropePmc::classify(&f, "u", "doi:x", at()), Outcome::NotApplicable { note } if note == "not found in Europe PMC"));
}

#[test]
fn a_genuinely_uncited_record_is_a_real_zero() {
    let f = EuropePmcResponse { hit_count: 1, cited_by_counts: vec![Some(0)] };
    let ms = values(EuropePmc::classify(&f, "u", "doi:x", at()));
    assert_eq!(ms[0].value, MetricValue::Count(0));
}

#[test]
fn europe_pmc_a_repo_search_with_no_hits_is_a_real_zero() {
    let ms = values(EuropePmc::classify_repo(Some(0), "u", "github:o/n", at()));
    assert_eq!(ms[0].name, "mentions");
    assert_eq!(ms[0].category, Category::Attention);
    assert_eq!(ms[0].value, MetricValue::Count(0));
}

#[test]
fn a_repo_search_without_hit_count_is_failed() {
    assert!(matches!(EuropePmc::classify_repo(None, "u", "github:o/n", at()), Outcome::Failed { .. }));
}

#[test]
fn europe_pmc_a_repo_search_transport_failure_is_failed() {
    assert_eq!(failed_with(EuropePmc::settle_repo_search(Err(TransportError::Timeout))), "request timed out");
}

#[test]
fn europe_pmc_searches_a_repository_by_its_github_url() {
    let repo = Identity::Repo(RepoId::parse("mbhall88/rasusa").unwrap());
    let url = EuropePmc::repo_search_url(&repo).unwrap();
    assert!(url.contains("github.com%2Fmbhall88%2Frasusa"));
    assert!(EuropePmc::repo_search_url(&doi()).is_none());
}

#[test]
fn handles_null_fwci_and_percentile_and_omits_open_access_when_absent() {
    let w = OaWork { cited_by_count: Some(10), fwci: None, citation_normalized_percentile: None, oa_status: None };
    let ms = values(OpenAlex::classify(&w, "u", "doi:x", at()));
    assert_eq!(ms.len(), 1);
    assert_eq!(ms[0].name, "citations");
}

#[test]
fn openalex_marks_a_top_percentile_and_the_open_access_status() {
    let w = OaWork {
        cited_by_count: Some(17232),
        fwci: Some(real_value(326.81)),
        citation_normalized_percentile: Some(OaPercentile {
            value_percent: Some(real_value(100.0)),
            is_in_top_1_percent: Some(true),
            is_in_top_10_percent: Some(true),
        }),
        oa_status: Some("bronze".into()),
    };
    let ms = values(OpenAlex::classify(&w, "u", "doi:x", at()));
    let names: Vec<&str> = ms.iter().map(|m| m.name.as_str()).collect();
    assert_eq!(names, vec!["citations", "fwci", "citation_percentile", "open_access"]);
    assert_eq!(ms[2].note.as_deref(), Some("top 1% in its field, year, and type"));
    assert_eq!(ms[3].category, Category::Attention);
    assert_eq!(ms[3].value, MetricValue::Text("bronze".into()));
}

#[test]
fn openalex_with_nothing_to_report_is_not_applicable() {
    let w = OaWork { cited_by_count: None, fwci: None, citation_normalized_percentile: None, oa_status: None };
    assert!(matches!(OpenAlex::classify(&w, "u", "doi:x", at()), Outcome::NotApplicable { .. }));
}

#[test]
fn openalex_not_found_is_not_applicable_not_zero() {
    assert_eq!(not_applicable_with(OpenAlex::settle_work(reply(404, ""))), "not found in OpenAlex");
}

#[test]
fn openalex_rate_limit_and_server_error_are_failed() {
    assert_eq!(failed_with(OpenAlex::settle_work(reply(429, ""))), "rate limited by OpenAlex (429)");
    assert_eq!(failed_with(OpenAlex::settle_work(reply(503, ""))), "OpenAlex server error (503)");
}

#[test]
fn openalex_transport_error_is_failed() {
    assert_eq!(failed_with(OpenAlex::settle_work(Err(TransportError::ConnectionFailed))), "connection failed");
}

#[test]
fn openalex_a_repo_search_with_no_hits_is_a_real_zero() {
    let ms = values(OpenAlex::classify_repo(Some(0), "u", "github:o/n", at()));
    assert_eq!(ms[0].value, MetricValue::Count(0));
}

#[test]
fn a_repo_search_without_meta_count_is_failed() {
    assert!(matches!(OpenAlex::classify_repo(None, "u", "github:o/n", at()), Outcome::Failed { .. }));
}

#[test]
fn openalex_a_repo_search_transport_failure_is_failed() {
    assert_eq!(failed_with(OpenAlex::settle_repo_search(Err(TransportError::Timeout))), "request timed out");
}

#[test]
fn zero_hits_is_a_genuine_zero_not_absence() {
    let ms = values(Wikipedia::classify(&SearchInfo { totalhits: Some(0) }, "u", "doi:x", at()));
    assert_eq!(ms[0].value, MetricValue::Count(0));
}

#[test]
fn the_doi_is_percent_encoded_and_quoted_for_an_exact_phrase_search() {
    let url = Wikipedia::request_url(&doi()).unwrap();
    assert!(url.ends_with("srsearch=%2210.1371%2Fjournal.pbio.1002195%22"));
}

#[test]
fn wikipedia_server_error_and_transport_error_are_failed() {
    assert_eq!(failed_with(Wikipedia::settle_reply(reply(503, ""))), "Wikipedia server error (503)");
    assert_eq!(failed_with(Wikipedia::settle_reply(Err(TransportError::Timeout))), "request timed out");
}

#[test]
fn missing_searchinfo_is_failed_not_a_silent_zero() {
    assert!(matches!(Wikipedia::classify(&SearchInfo { totalhits: None }, "u", "doi:x", at()), Outcome::Failed { .. }));
}

// -- Altmetric ----------------------------------------------------------------

#[test]
fn without_a_key_nothing_is_collected_and_the_reason_is_explicit() {
    match Altmetric::with_key(None).request_urls(&doi()) {
        Err(Outcome::NotApplicable { note }) => {
            assert!(note.contains("ALTMETRIC_KEY"));
            assert!(note.contains("not collected"));
        }
        other => panic!("expected NotApplicable, got {other:?}"),
    }
}

#[test]
fn fetches_a_pmid_via_the_pmid_path() {
    let keyed = Altmetric::with_key(Some("test-key".into()));
    let pmid = Identity::Paper(PaperId::Pmid("31234567".into()));
    let (fetch, public) = keyed.request_urls(&pmid).unwrap();
    assert_eq!(public, "https://api.altmetric.com/v1/fetch/pmid/31234567");
    assert_eq!(fetch, "https://api.altmetric.com/v1/fetch/pmid/31234567?key=test-key");
}

#[test]
fn a_rejected_key_is_a_distinct_failed_reason() {
    let error = failed_with(Altmetric::settle_reply(reply(403, "")));
    assert!(error.contains("403"));
    assert!(error.contains("ALTMETRIC_KEY"));
}

#[test]
fn altmetric_not_found_is_not_applicable_not_zero() {
    assert_eq!(not_applicable_with(Altmetric::settle_reply(reply(404, ""))), "not found in Altmetric");
}

#[test]
fn altmetric_server_error_and_transport_error_are_failed() {
    assert_eq!(failed_with(Altmetric::settle_reply(reply(503, ""))), "Altmetric server error (503)");
    assert_eq!(failed_with(Altmetric::settle_reply(Err(TransportError::Timeout))), "request timed out");
}

fn no_fields() -> AltmetricResponse {
    AltmetricResponse {
        score: None,
        details_url: None,
        cited_by_msm_count: None,
        cited_by_feeds_count: None,
        cited_by_policies_count: None,
        cited_by_patents_count: None,
        cited_by_tweeters_count: None,
        mendeley_readers: None,
    }
}

#[test]
fn a_response_with_no_recognized_fields_is_failed_never_a_confirmed_zero() {
    assert!(matches!(Altmetric::classify(&no_fields(), "p", "doi:x", at()), Outcome::Failed { .. }));
}

#[test]
fn altmetric_reads_the_full_breakdown_and_prefers_the_details_page() {
    let f = AltmetricResponse {
        score: Some(real_value(214.35)),
        details_url: Some("https://www.altmetric.com/details/1".into()),
        cited_by_msm_count: Some(12),
        cited_by_feeds_count: Some(8),
        cited_by_policies_count: Some(2),
        cited_by_patents_count: Some(1),
        cited_by_tweeters_count: Some(180),
        mendeley_readers: Some(900),
    };
    let ms = values(Altmetric::classify(&f, "p", "doi:x", at()));
    assert_eq!(ms.len(), 7);
    assert_eq!(ms[0].name, "attention_score");
    assert_eq!(ms[0].category, Category::Attention);
    assert!(ms.iter().all(|m| m.source == "https://www.altmetric.com/details/1"));
    let news = ms.iter().find(|m| m.name == "news_mentions").unwrap();
    assert_eq!(news.value, MetricValue::Count(12));
    let mendeley = ms.iter().find(|m| m.name == "mendeley_readers").unwrap();
    assert_eq!(mendeley.value, MetricValue::Count(900));

    let only_news = AltmetricResponse { cited_by_msm_count: Some(3), ..no_fields() };
    let ms = values(Altmetric::classify(&only_news, "p", "doi:x", at()));
    assert_eq!(ms[0].source, "p");
}

// -- GitHub -------------------------------------------------------------------

#[test]
fn missing_repo_is_not_applicable_not_zero() {
    assert_eq!(not_applicable_with(GitHub::settle_core(reply(404, ""))), "repository not found on GitHub");
}

#[test]
fn rate_limit_and_transport_error_are_failed() {
    assert!(failed_with(GitHub::settle_core(reply(403, ""))).contains("GITHUB_TOKEN"));
    assert_eq!(failed_with(GitHub::settle_core(reply(429, ""))), "rate limited by GitHub (429)");
    assert_eq!(failed_with(GitHub::settle_core(reply(502, ""))), "GitHub server error (502)");
    assert_eq!(failed_with(GitHub::settle_core(Err(TransportError::Timeout))), "request timed out");
}

#[test]
fn parses_all_code_metrics() {
    let repo = Identity::Repo(RepoId::parse("lh3/minimap2").unwrap());
    let base = GitHub::request_url(&repo).unwrap();
    assert_eq!(base, "https://api.github.com/repos/lh3/minimap2");
    let core = GhRepo { stargazers_count: Some(2228), forks_count: Some(471), subscribers_count: Some(81) };
    let age = RepoAge { years: real_value(9.04), since: "2017-07-18".into() };
    let ms = values(GitHub::assemble(&core, Some(age), Some(51), Some(301222), &base, "github:lh3/minimap2", at()));
    let names: Vec<&str> = ms.iter().map(|m| m.name.as_str()).collect();
    assert_eq!(names, vec!["stars", "forks", "watchers", "repo_age_years", "contributors", "release_downloads"]);
    assert!(ms.iter().all(|m| m.category == Category::Code && m.provider == "github"));
    assert_eq!(ms[3].note.as_deref(), Some("since 2017-07-18"));
    assert_eq!(ms[4].source, "https://api.github.com/repos/lh3/minimap2/contributors?per_page=1&anon=true");
    assert_eq!(ms[5].source, "https://api.github.com/repos/lh3/minimap2/releases?per_page=100");
}

#[test]
fn a_failed_secondary_call_omits_its_metric_only() {
    let core = GhRepo { stargazers_count: Some(1), forks_count: None, subscribers_count: None };
    let ms = values(GitHub::assemble(&core, None, None, None, "b", "github:o/n", at()));
    let names: Vec<&str> = ms.iter().map(|m| m.name.as_str()).collect();
    assert_eq!(names, vec!["stars"]);
}

#[test]
fn contributors_come_from_the_last_page_or_the_listing() {
    let link = "<https://api.github.com/x?per_page=1&page=2>; rel=\"next\", <https://api.github.com/x?per_page=1&page=51>; rel=\"last\"";
    assert_eq!(GitHub::contributor_count(200, Some(link), 1), Some(51));
    assert_eq!(GitHub::contributor_count(200, None, 1), Some(1));
    assert_eq!(GitHub::contributor_count(200, Some("<x>; rel=\"next\""), 3), Some(3));
    assert_eq!(GitHub::contributor_count(204, None, 0), None);
}

#[test]
fn release_downloads_sum_every_asset() {
    assert_eq!(GitHub::release_total(&vec![vec![1, 2], vec![], vec![10]]), 13);
    assert_eq!(GitHub::release_total(&vec![]), 0);
    assert_eq!(GitHub::release_total(&vec![vec![u64::MAX], vec![1]]), u64::MAX);
}

#[test]
fn the_creation_date_is_the_part_before_the_time() {
    assert_eq!(boast::providers::github::creation_date("2017-07-18T12:00:00Z"), "2017-07-18");
    assert_eq!(boast::providers::github::creation_date("2017-07-18"), "2017-07-18");
}

#[test]
fn the_contributors_call_counts_from_its_reply() {
    let with_link = Ok(HttpResponse {
        status: 200,
        body: "[{}]".into(),
        url: "u".into(),
        headers: vec![("link".into(), "<https://x?per_page=1&page=477>; rel=\"last\"".into())],
    });
    assert_eq!(GitHub::contributors_from(&with_link, 1), Some(477));
    assert_eq!(GitHub::contributors_from(&reply(200, "[{},{}]"), 2), Some(2));
    assert_eq!(GitHub::contributors_from(&reply(500, ""), 0), None);
    assert_eq!(GitHub::contributors_from(&Err(TransportError::Timeout), 0), None);
}

#[test]
fn the_releases_call_sums_only_a_readable_200() {
    let assets = vec![vec![5, 6], vec![7]];
    assert_eq!(GitHub::release_downloads_from(&reply(200, "[]"), Some(&assets)), Some(18));
    assert_eq!(GitHub::release_downloads_from(&reply(200, "nope"), None), None);
    assert_eq!(GitHub::release_downloads_from(&reply(404, ""), Some(&assets)), None);
    assert_eq!(GitHub::release_downloads_from(&Err(TransportError::ConnectionFailed), Some(&assets)), None);
}

#[test]
fn repo_age_counts_whole_seconds_since_creation_in_any_offset() {
    let created = 1_500_372_000i128;
    let now = Timestamp { unix_nanos: (created + 2 * 86_400 + 5) * 1_000_000_000 + 999_999_999, offset_secs: 0 };
    let (secs, since) = boast::providers::github::repo_age_seconds("2017-07-18T10:00:00Z", now).unwrap();
    assert_eq!(secs, 2 * 86_400 + 5);
    assert_eq!(since, "2017-07-18");
    let (same, local) = boast::providers::github::repo_age_seconds("2017-07-18T12:00:00+02:00", now).unwrap();
    assert_eq!(same, 2 * 86_400 + 5);
    assert_eq!(local, "2017-07-18");
}

#[test]
fn repo_age_of_a_future_creation_is_zero_and_a_bad_text_gives_none() {
    let before = Timestamp { unix_nanos: 1_000_000_000, offset_secs: 0 };
    let (secs, _) = boast::providers::github::repo_age_seconds("2017-07-18T10:00:00Z", before).unwrap();
    assert_eq!(secs, 0);
    assert!(boast::providers::github::repo_age_seconds("18 July 2017", before).is_none());
}

#[test]
fn homebrew_analytics_with_a_repeated_key_are_not_well_formed() {
    let ok = installs(&[("30d", &[("samtools", 10), ("bwa", 3)]), ("365d", &[("samtools", 100)])]);
    assert!(ok.analytics.as_ref().unwrap().is_well_formed());
    let twice_period = installs(&[("30d", &[("samtools", 10)]), ("30d", &[("samtools", 11)])]);
    assert!(!twice_period.analytics.as_ref().unwrap().is_well_formed());
    let twice_name = installs(&[("30d", &[("samtools", 10), ("samtools", 12)])]);
    assert!(!twice_name.analytics.as_ref().unwrap().is_well_formed());
}

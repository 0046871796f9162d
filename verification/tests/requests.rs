//! Each Provider's request through a transport, with scripted replies.

use std::time::Duration;

use boast::identity::{Identity, OrcidId, PackageId, PaperId, Registry, RepoId};
use boast::model::{MetricValue, Outcome, Timestamp};
use boast::orcid::{request_works, OrcidError};
use boast::providers::altmetric::Altmetric;
use boast::providers::bioconda::Bioconda;
use boast::providers::crates_io::CratesIo;
use boast::providers::crossref::Crossref;
use boast::providers::dimensions::Dimensions;
use boast::providers::docker_hub::DockerHub;
use boast::providers::europe_pmc::EuropePmc;
use boast::providers::github::GitHub;
use boast::providers::homebrew::Homebrew;
use boast::providers::openalex::{OaWork, OpenAlex};
use boast::providers::pypi::Pypi;
use boast::providers::quay::Quay;
use boast::providers::wikipedia::Wikipedia;
use boast::transport::{MockTransport, RetryPolicy, RetryingTransport, TransportError};

fn doi() -> Identity {
    Identity::Paper(PaperId::Doi("10.1371/journal.pbio.1002195".into()))
}

fn package(registry: Registry, name: &str) -> Identity {
    Identity::Package(PackageId { registry, name: name.into() })
}

fn is_na(r: &Result<(String, boast::transport::HttpResponse), Outcome>) -> bool {
    matches!(r, Err(Outcome::NotApplicable { .. }))
}

fn is_failed(r: &Result<(String, boast::transport::HttpResponse), Outcome>) -> bool {
    matches!(r, Err(Outcome::Failed { .. }))
}

#[test]
fn crates_io_requests_the_crate_and_hands_back_the_reply() {
    let mut t = MockTransport::new().on("crates.io/api/v1/crates/boast", 200, "{\"crate\":{\"downloads\":5}}");
    let (url, resp) = CratesIo::request(&package(Registry::Crates, "boast"), &mut t).unwrap();
    assert_eq!(url, "https://crates.io/api/v1/crates/boast");
    assert_eq!(resp.status, 200);
    assert_eq!(resp.body, "{\"crate\":{\"downloads\":5}}");

    let mut t404 = MockTransport::new().on("crates.io/api/v1/crates/", 404, "{}");
    assert!(is_na(&CratesIo::request(&package(Registry::Crates, "boast"), &mut t404)));
    let mut t429 = MockTransport::new().on("crates.io/api/v1/crates/", 429, "");
    assert!(is_failed(&CratesIo::request(&package(Registry::Crates, "boast"), &mut t429)));
    let mut terr = MockTransport::new().on_error("crates.io/api/v1/crates/", TransportError::ConnectionFailed);
    assert!(is_failed(&CratesIo::request(&package(Registry::Crates, "boast"), &mut terr)));
}

#[test]
fn a_provider_never_requests_an_identity_it_cannot_answer() {
    // No route is registered: a request would come back as an error.
    let mut t = MockTransport::new();
    assert!(is_na(&CratesIo::request(&doi(), &mut t)));
    assert!(is_na(&Bioconda::request(&doi(), &mut t)));
    assert!(is_na(&Pypi::request(&doi(), &mut t)));
    assert!(is_na(&Homebrew::request(&doi(), &mut t)));
    assert!(is_na(&DockerHub::request(&package(Registry::Docker, "nonamespace"), &mut t)));
    assert!(is_na(&Quay::request(&package(Registry::Quay, "nonamespace"), &mut t)));
    assert!(is_na(&Crossref::request(&Identity::Paper(PaperId::Pmid("1".into())), &mut t)));
    assert!(is_na(&Dimensions::request(&Identity::Paper(PaperId::Pmid("1".into())), &mut t)));
    assert!(is_na(&Wikipedia::request(&Identity::Paper(PaperId::Pmid("1".into())), &mut t)));
    assert!(EuropePmc::request_repo_search(&doi(), &mut t).is_none());
    assert!(OpenAlex::request_repo_search(&doi(), &mut t).is_none());
}

#[test]
fn missing_key_is_not_applicable_never_a_network_call_or_a_failure() {
    let mut t = MockTransport::new();
    match Altmetric::with_key(None).request(&doi(), &mut t) {
        Err(Outcome::NotApplicable { note }) => assert!(note.contains("ALTMETRIC_KEY")),
        other => panic!("expected NotApplicable, got {other:?}"),
    }
}

#[test]
fn altmetric_requests_with_the_key_and_records_the_public_url() {
    let keyed = Altmetric::with_key(Some("test-key".into()));
    let mut t = MockTransport::new().on("api.altmetric.com/v1/fetch/doi/", 200, "{\"score\": 1.0}");
    let (public, resp) = keyed.request(&doi(), &mut t).unwrap();
    assert_eq!(public, "https://api.altmetric.com/v1/fetch/doi/10.1371/journal.pbio.1002195");
    assert_eq!(resp.url, "https://api.altmetric.com/v1/fetch/doi/10.1371/journal.pbio.1002195?key=test-key");

    let mut t403 = MockTransport::new().on("api.altmetric.com/v1/fetch/doi/", 403, "");
    match keyed.request(&doi(), &mut t403) {
        Err(Outcome::Failed { error }) => assert!(error.contains("rejected")),
        other => panic!("expected Failed, got {other:?}"),
    }
}

#[test]
fn quay_reads_a_401_as_absence() {
    let mut t = MockTransport::new().on("quay.io/api/v1/repository/", 401, "");
    assert!(is_na(&Quay::request(&package(Registry::Quay, "biocontainers/samtools"), &mut t)));
    let mut t503 = MockTransport::new().on("quay.io/api/v1/repository/", 503, "");
    assert!(is_failed(&Quay::request(&package(Registry::Quay, "biocontainers/samtools"), &mut t503)));
}

#[test]
fn the_paper_and_repository_searches_take_their_own_urls() {
    let mut t = MockTransport::new()
        .on("api.openalex.org/works?filter=", 200, "{\"meta\":{\"count\":3}}")
        .on("api.openalex.org/works/doi:", 200, "{}")
        .on("europepmc", 200, "{\"hitCount\":2}");
    let repo = Identity::Repo(RepoId::parse("lh3/minimap2").unwrap());
    let (url, _) = OpenAlex::request_repo_search(&repo, &mut t).unwrap().unwrap();
    assert!(url.starts_with("https://api.openalex.org/works?filter="));
    let (url, _) = OpenAlex::request_paper(&doi(), &mut t).unwrap();
    assert_eq!(url, "https://api.openalex.org/works/doi:10.1371/journal.pbio.1002195");
    let (url, _) = EuropePmc::request_repo_search(&repo, &mut t).unwrap().unwrap();
    assert!(url.contains("resultType=idlist"));
    let (url, _) = EuropePmc::request_paper(&doi(), &mut t).unwrap();
    assert!(url.contains("query=DOI:10.1371/journal.pbio.1002195"));
}

#[test]
fn a_repo_search_failure_is_failed() {
    let repo = Identity::Repo(RepoId::parse("lh3/minimap2").unwrap());
    let mut t = MockTransport::new().on_error("europepmc", TransportError::Timeout).on_error("openalex", TransportError::Timeout);
    assert!(matches!(EuropePmc::request_repo_search(&repo, &mut t), Some(Err(Outcome::Failed { .. }))));
    assert!(matches!(OpenAlex::request_repo_search(&repo, &mut t), Some(Err(Outcome::Failed { .. }))));
}

#[test]
fn github_requests_the_repository_with_its_headers() {
    let repo = Identity::Repo(RepoId::parse("lh3/minimap2").unwrap());
    let mut t = MockTransport::new().on("api.github.com/repos/lh3/minimap2", 200, "{\"stargazers_count\": 1}");
    let (base, resp) = GitHub::with_token(None).request_core(&repo, &mut t).unwrap();
    assert_eq!(base, "https://api.github.com/repos/lh3/minimap2");
    assert_eq!(resp.status, 200);
    let mut t404 = MockTransport::new().on("api.github.com/repos/", 404, "");
    assert!(is_na(&GitHub::with_token(None).request_core(&repo, &mut t404)));
    let mut t403 = MockTransport::new().on("api.github.com/repos/", 403, "");
    assert!(is_failed(&GitHub::with_token(None).request_core(&repo, &mut t403)));
    assert!(is_na(&GitHub::with_token(None).request_core(&doi(), &mut t)));
}

#[test]
fn not_found_orcid_is_a_dedicated_error() {
    let orcid = OrcidId::parse("0000-0002-1825-0097").unwrap();
    let mut t = MockTransport::new().on("pub.orcid.org/v3.0/0000-0002-1825-0097/works", 404, "");
    assert!(matches!(request_works(&orcid, &mut t), Err(OrcidError::NotFound(_))));
}

#[test]
fn server_error_and_transport_error_are_reported() {
    let orcid = OrcidId::parse("0000-0002-1825-0097").unwrap();
    let mut t = MockTransport::new().on("pub.orcid.org", 503, "");
    assert!(matches!(request_works(&orcid, &mut t), Err(OrcidError::Status { status: 503, .. })));
    let mut terr = MockTransport::new().on_error("pub.orcid.org", TransportError::Timeout);
    assert!(matches!(request_works(&orcid, &mut terr), Err(OrcidError::Transport(TransportError::Timeout))));
    let mut ok = MockTransport::new().on("pub.orcid.org", 200, "{\"group\": []}");
    assert_eq!(request_works(&orcid, &mut ok).unwrap().body, "{\"group\": []}");
}

#[test]
fn a_429_then_200_composes_through_retry_and_provider_into_a_real_outcome_value() {
    let inner = MockTransport::new().on_sequence("api.openalex.org/works/", &[(429, ""), (200, "{\"cited_by_count\": 10}")]);
    let mut t = RetryingTransport::with_policy_and_sleep(inner, RetryPolicy::default(), |_d: Duration| {});
    let (url, resp) = OpenAlex::request_paper(&doi(), &mut t).unwrap();
    assert_eq!(resp.body, "{\"cited_by_count\": 10}");
    let w = OaWork { cited_by_count: Some(10), fwci: None, citation_normalized_percentile: None, oa_status: None };
    match OpenAlex::classify(&w, &url, "doi:10.1371/journal.pbio.1002195", Timestamp { unix_nanos: 0, offset_secs: 0 }) {
        Outcome::Values { metrics, .. } => assert_eq!(metrics[0].value, MetricValue::Count(10)),
        other => panic!("expected Values, got {other:?}"),
    }
}

#[test]
fn persistent_429_composes_through_retry_and_provider_into_a_bounded_failed_outcome() {
    let inner = MockTransport::new().on("api.openalex.org/works/", 429, "");
    let policy = RetryPolicy { max_retries: 2, base_delay: Duration::from_millis(1) };
    let mut t = RetryingTransport::with_policy_and_sleep(inner, policy, |_d: Duration| {});
    match OpenAlex::request_paper(&doi(), &mut t) {
        Err(Outcome::Failed { error }) => assert_eq!(error, "rate limited by OpenAlex (429)"),
        other => panic!("expected Failed, got {other:?}"),
    }
}

use boast::identity::{Identity, PackageId, PaperId, Registry, RepoHost, RepoId};
use boast::model::{Category, MetricValue, Outcome, Timestamp, Window};
use boast::provider::{classify_status, KeyRequirement, Provider};
use boast::providers::altmetric::Altmetric;
use boast::providers::bioconda::Bioconda;
use boast::providers::crates_io::{CrateInfo, CratesIo};
use boast::providers::crossref::Crossref;
use boast::providers::dimensions::Dimensions;
use boast::providers::docker_hub::DockerHub;
use boast::providers::europe_pmc::EuropePmc;
use boast::providers::github::{parse_last_page, GitHub};
use boast::providers::homebrew::Homebrew;
use boast::providers::pypi::Pypi;
use boast::providers::quay::{total_pulls, Quay};
use boast::providers::wikipedia::{SearchInfo, Wikipedia};
use boast::providers::{
    default_providers, describe_key, paper_provider_count, percent_encode, render_providers, settle,
};
use boast::transport::{HttpResponse, TransportError};

fn doi() -> Identity {
    Identity::Paper(PaperId::Doi("10.1371/journal.pbio.1002195".into()))
}

fn pmid() -> Identity {
    Identity::Paper(PaperId::Pmid("31234567".into()))
}

fn repo() -> Identity {
    Identity::Repo(RepoId::parse("owner/name").unwrap())
}

fn package(registry: Registry, name: &str) -> Identity {
    Identity::Package(PackageId { registry, name: name.into() })
}

#[test]
fn declares_altmetric_key_as_required_regardless_of_whether_one_is_set() {
    assert_eq!(
        Altmetric::with_key(None).key_requirement(),
        KeyRequirement::Required { env_var: "ALTMETRIC_KEY" }
    );
    assert_eq!(
        Altmetric::with_key(Some("test-key".into())).key_requirement(),
        KeyRequirement::Required { env_var: "ALTMETRIC_KEY" }
    );
}

#[test]
fn supports_papers_by_doi_or_pmid_not_repos_or_packages() {
    let keyless = Altmetric::with_key(None);
    assert!(keyless.supports(&doi()));
    assert!(keyless.supports(&pmid()));
    assert!(!keyless.supports(&repo()));
}

#[test]
fn bioconda_does_not_support_papers_repos_or_other_registries() {
    let doi = Identity::Paper(PaperId::Doi("10.1/x".into()));
    assert!(!Bioconda.supports(&doi));
    assert!(!Bioconda.supports(&repo()));
    assert!(!Bioconda.supports(&package(Registry::Crates, "boast")));
    assert!(Bioconda.supports(&package(Registry::Bioconda, "samtools")));
}

#[test]
fn does_not_support_papers_or_repos() {
    let doi = Identity::Paper(PaperId::Doi("10.1/x".into()));
    assert!(!CratesIo.supports(&doi));
    assert!(!CratesIo.supports(&repo()));
    assert!(CratesIo.supports(&package(Registry::Crates, "boast")));
}

#[test]
fn crossref_does_not_support_pmid() {
    assert!(!Crossref.supports(&pmid()));
    assert!(Crossref.supports(&doi()));
}

#[test]
fn dimensions_does_not_support_pmid() {
    assert!(!Dimensions.supports(&pmid()));
    assert!(Dimensions.supports(&doi()));
}

#[test]
fn does_not_support_repo_or_package() {
    assert!(!Dimensions.supports(&repo()));
}

#[test]
fn supports_only_docker_packages() {
    assert!(DockerHub.supports(&package(Registry::Docker, "biocontainers/samtools")));
    assert!(!DockerHub.supports(&package(Registry::Conda, "bioconda/samtools")));
    assert!(!DockerHub.supports(&Identity::Repo(RepoId {
        host: RepoHost::GitHub,
        owner: "lh3".into(),
        name: "minimap2".into(),
    })));
    assert!(!DockerHub.supports(&Identity::Paper(PaperId::Doi("10.0/0".into()))));
}

#[test]
fn supports_papers_and_repos_not_packages() {
    assert!(EuropePmc.supports(&doi()));
    assert!(EuropePmc.supports(&Identity::Paper(PaperId::Pmid("26151137".into()))));
    assert!(EuropePmc.supports(&Identity::Repo(RepoId::parse("mbhall88/rasusa").unwrap())));
    assert!(!EuropePmc.supports(&package(Registry::Crates, "boast")));
}

#[test]
fn does_not_support_papers() {
    let paper = Identity::Paper(PaperId::Doi("10.1/x".into()));
    assert!(!GitHub::with_token(None).supports(&paper));
    assert!(GitHub::with_token(None).supports(&repo()));
}

#[test]
fn request_headers_include_bearer_only_when_token_present() {
    let with = GitHub::with_token(Some("secret".into()));
    let headers = with.request_headers();
    assert!(headers.iter().any(|(k, v)| k == "Authorization" && v == "Bearer secret"));

    let without = GitHub::with_token(None);
    let headers = without.request_headers();
    assert!(!headers.iter().any(|(k, _)| k == "Authorization"));
    assert!(headers.iter().any(|(k, _)| k == "Accept"));
}

#[test]
fn parse_last_page_reads_rel_last_and_ignores_per_page() {
    // Realistic GitHub Link header: `per_page=1` must not be mistaken for `page`.
    let link = "<https://api.github.com/x?per_page=1&page=2>; rel=\"next\", \
                <https://api.github.com/x?per_page=1&page=477>; rel=\"last\"";
    assert_eq!(parse_last_page(link), Some(477));
    assert_eq!(parse_last_page("<https://x?per_page=1&page=2>; rel=\"next\""), None);
}

#[test]
fn homebrew_does_not_support_papers_repos_or_other_registries() {
    let doi = Identity::Paper(PaperId::Doi("10.1/x".into()));
    assert!(!Homebrew.supports(&doi));
    assert!(!Homebrew.supports(&repo()));
    assert!(!Homebrew.supports(&package(Registry::Crates, "boast")));
    assert!(Homebrew.supports(&package(Registry::Homebrew, "samtools")));
}

#[test]
fn paper_provider_count_matches_the_real_registrys_paper_supporting_providers() {
    // openalex, crossref, dimensions, europe_pmc, wikipedia, altmetric.
    assert_eq!(paper_provider_count(), 6);
}

#[test]
fn pypi_does_not_support_papers_repos_or_other_registries() {
    let doi = Identity::Paper(PaperId::Doi("10.1/x".into()));
    assert!(!Pypi.supports(&doi));
    assert!(!Pypi.supports(&repo()));
    assert!(!Pypi.supports(&package(Registry::Crates, "boast")));
    assert!(Pypi.supports(&package(Registry::Pypi, "rasusa")));
}

#[test]
fn supports_only_quay_packages() {
    assert!(Quay.supports(&package(Registry::Quay, "biocontainers/samtools")));
    assert!(!Quay.supports(&package(Registry::Docker, "biocontainers/samtools")));
    assert!(!Quay.supports(&package(Registry::Conda, "bioconda/samtools")));
    assert!(!Quay.supports(&Identity::Repo(RepoId {
        host: RepoHost::GitHub,
        owner: "lh3".into(),
        name: "minimap2".into(),
    })));
    assert!(!Quay.supports(&Identity::Paper(PaperId::Doi("10.0/0".into()))));
}

#[test]
fn does_not_support_pmid_repo_or_package() {
    assert!(!Wikipedia.supports(&pmid()));
    assert!(!Wikipedia.supports(&repo()));
    assert!(Wikipedia.supports(&doi()));
}

#[test]
fn the_default_registry_is_in_display_order() {
    let ps = default_providers(None, None);
    let names: Vec<&str> = ps.iter().map(|p| p.name()).collect();
    assert_eq!(
        names,
        vec![
            "openalex", "crossref", "dimensions", "europe_pmc", "wikipedia", "altmetric", "github",
            "crates.io", "bioconda", "pypi", "homebrew", "dockerhub", "quay",
        ]
    );
}

#[test]
fn reflects_the_real_registry_with_no_hard_coded_drift() {
    let providers = default_providers(None, None);
    let out = render_providers(&providers, &vec![]);
    for p in &providers {
        assert!(out.contains(p.name()), "missing {} in output", p.name());
    }
    // Header plus exactly one row per registered Provider.
    assert_eq!(out.lines().count(), providers.len() + 1);
    assert!(out.contains("required: ALTMETRIC_KEY"));
    assert!(out.contains("optional: GITHUB_TOKEN"));
}

#[test]
fn key_column_distinguishes_keyless_optional_and_required() {
    let set = vec!["OPT_TOKEN".to_string()];
    assert_eq!(describe_key(KeyRequirement::Keyless, &set), "none");
    assert_eq!(
        describe_key(KeyRequirement::Optional { env_var: "OPT_TOKEN" }, &set),
        "optional: OPT_TOKEN (set)"
    );
    assert_eq!(
        describe_key(KeyRequirement::Required { env_var: "REQ_KEY" }, &set),
        "required: REQ_KEY (not set)"
    );
}

#[test]
fn percent_encoding_escapes_reserved_and_keeps_unreserved() {
    assert_eq!(percent_encode("10.1371/journal.pbio.1002195"), "10.1371%2Fjournal.pbio.1002195");
    assert_eq!(percent_encode("a b"), "a%20b");
    assert_eq!(percent_encode("AZaz09-._~"), "AZaz09-._~");
    assert_eq!(percent_encode("\"x\""), "%22x%22");
    assert_eq!(percent_encode("é"), "%C3%A9");
}

#[test]
fn status_classification_never_becomes_a_value() {
    assert!(classify_status(200, "crates.io", "missing").is_none());
    assert_eq!(
        classify_status(404, "crates.io", "missing"),
        Some(Outcome::NotApplicable { note: "missing".into() })
    );
    assert_eq!(
        classify_status(429, "crates.io", "missing"),
        Some(Outcome::Failed { error: "rate limited by crates.io (429)".into() })
    );
    assert_eq!(
        classify_status(503, "crates.io", "missing"),
        Some(Outcome::Failed { error: "crates.io server error (503)".into() })
    );
    assert_eq!(
        classify_status(418, "crates.io", "missing"),
        Some(Outcome::Failed { error: "unexpected crates.io status (418)".into() })
    );
}

#[test]
fn settle_passes_a_200_through_and_fails_a_transport_error() {
    let ok = HttpResponse { status: 200, body: "{}".into(), url: "u".into(), headers: vec![] };
    assert_eq!(settle(Ok(ok.clone()), "x", "nf"), Ok(ok));
    assert_eq!(
        settle(Err(TransportError::Timeout), "x", "nf"),
        Err(Outcome::Failed { error: "request timed out".into() })
    );
}

#[test]
fn crates_io_counts_downloads_and_never_invents_zero() {
    let at = Timestamp { unix_nanos: 0, offset_secs: 0 };
    match CratesIo::classify(&CrateInfo { downloads: Some(842_617) }, "src", "crates:boast", at) {
        Outcome::Values { metrics, metadata } => {
            assert!(metadata.is_none());
            assert_eq!(metrics.len(), 1);
            assert_eq!(metrics[0].name, "downloads");
            assert_eq!(metrics[0].category, Category::Downloads);
            assert_eq!(metrics[0].value, MetricValue::Count(842_617));
            assert_eq!(metrics[0].window, Window::Cumulative);
            assert_eq!(metrics[0].provider, "crates.io");
            assert_eq!(metrics[0].identity, "crates:boast");
        }
        other => panic!("expected Values, got {other:?}"),
    }
    assert!(matches!(
        CratesIo::classify(&CrateInfo { downloads: None }, "src", "crates:boast", at),
        Outcome::NotApplicable { .. }
    ));
}

#[test]
fn wikipedia_mentions_carry_the_language_note() {
    let at = Timestamp { unix_nanos: 0, offset_secs: 0 };
    match Wikipedia::classify(&SearchInfo { totalhits: Some(3) }, "src", "doi:10.1/x", at) {
        Outcome::Values { metrics, .. } => {
            assert_eq!(metrics[0].name, "wikipedia_mentions");
            assert_eq!(metrics[0].value, MetricValue::Count(3));
            assert!(metrics[0].note.as_deref().unwrap().contains("other-language"));
        }
        other => panic!("expected Values, got {other:?}"),
    }
    assert!(matches!(
        Wikipedia::classify(&SearchInfo { totalhits: None }, "src", "doi:10.1/x", at),
        Outcome::Failed { .. }
    ));
}

#[test]
fn quay_total_pulls_sums_the_daily_counts() {
    assert_eq!(total_pulls(&vec![1, 2, 3]), 6);
    assert_eq!(total_pulls(&vec![]), 0);
    assert_eq!(total_pulls(&vec![u64::MAX, 1]), u64::MAX);
}

#[test]
fn crates_io_request_url_names_the_crate() {
    assert_eq!(
        CratesIo::request_url(&package(Registry::Crates, "boast")),
        Ok("https://crates.io/api/v1/crates/boast".to_string())
    );
    assert!(CratesIo::request_url(&doi()).is_err());
}

#[test]
fn the_providers_table_has_a_header_and_one_line_per_provider_by_category() {
    let providers = boast::providers::default_providers(None, None);
    let table = boast::providers::render_providers(&providers, &vec!["GITHUB_TOKEN".to_string()]);
    let lines: Vec<&str> = table.lines().collect();
    assert_eq!(lines.len(), providers.len() + 1);
    assert!(lines[0].starts_with("PROVIDER"));
    let order = ["Code", "Downloads", "Citations", "Attention"];
    let ranks: Vec<usize> = lines[1..]
        .iter()
        .map(|l| order.iter().position(|c| l.split_whitespace().nth(1) == Some(*c)).unwrap())
        .collect();
    assert!(ranks.windows(2).all(|w| w[0] <= w[1]), "{table}");
    assert!(table.contains("optional: GITHUB_TOKEN (set)"), "{table}");
}

use boast::identity::{Identity, PackageId, PaperId, Project, Registry, RepoId};
use boast::model::{Category, Metric, MetricValue, Outcome, Timestamp, Window};
use boast::orchestrator::{assemble_snapshot, host_queues, plan_jobs, worker_count, DEFAULT_CONCURRENCY};
use boast::provider::Provider;
use boast::providers::default_providers;

fn doi(d: &str) -> Identity {
    Identity::Paper(PaperId::Doi(d.into()))
}

#[test]
fn a_paper_is_fetched_by_every_paper_provider_in_registry_order() {
    let providers = default_providers(None, None);
    let project = Project::new(vec![doi("10.1/x")]);
    let jobs = plan_jobs(&project, &providers);
    let names: Vec<&str> = jobs.iter().map(|j| providers[j.provider].name()).collect();
    assert_eq!(names, vec!["openalex", "crossref", "dimensions", "europe_pmc", "wikipedia", "altmetric"]);
    assert!(jobs.iter().all(|j| j.identity == 0 && j.canonical == "doi:10.1/x"));
}

#[test]
fn jobs_are_identity_major_and_provider_minor() {
    let providers = default_providers(None, None);
    let project = Project::new(vec![
        Identity::Repo(RepoId::parse("o/n").unwrap()),
        Identity::Package(PackageId { registry: Registry::Crates, name: "boast".into() }),
    ]);
    let jobs = plan_jobs(&project, &providers);
    let pairs: Vec<(&str, usize)> = jobs.iter().map(|j| (providers[j.provider].name(), j.identity)).collect();
    assert_eq!(
        pairs,
        vec![("openalex", 0), ("europe_pmc", 0), ("github", 0), ("crates.io", 1)]
    );
}

#[test]
fn jobs_of_one_host_share_one_queue_in_job_order() {
    let providers = default_providers(None, None);
    let project = Project::new(vec![doi("10.1/x"), doi("10.2/y")]);
    let jobs = plan_jobs(&project, &providers);
    let queues = host_queues(&jobs, &providers);
    // One queue per paper Provider, each holding its two jobs in order.
    assert_eq!(queues.len(), 6);
    for q in &queues {
        assert_eq!(q.len(), 2);
        assert!(q[0] < q[1]);
        assert_eq!(jobs[q[0]].provider, jobs[q[1]].provider);
        assert_eq!(jobs[q[0]].identity, 0);
        assert_eq!(jobs[q[1]].identity, 1);
    }
    // Every job is in exactly one queue.
    let mut all: Vec<usize> = queues.iter().flatten().copied().collect();
    all.sort();
    assert_eq!(all, (0..jobs.len()).collect::<Vec<_>>());
}

#[test]
fn zero_max_concurrent_hosts_is_treated_as_one_rather_than_hanging() {
    assert_eq!(worker_count(5, 0), 1);
    assert_eq!(worker_count(1, 0), 1);
}

#[test]
fn worker_count_never_exceeds_the_hosts_or_the_cap() {
    assert_eq!(worker_count(20, DEFAULT_CONCURRENCY), 8);
    assert_eq!(worker_count(3, DEFAULT_CONCURRENCY), 3);
    assert_eq!(worker_count(20, 2), 2);
    assert_eq!(worker_count(0, 4), 0);
}

#[test]
fn the_snapshot_keeps_job_order_and_records_every_outcome() {
    let providers = default_providers(None, None);
    let project = Project::new(vec![doi("10.1/x")]);
    let jobs = plan_jobs(&project, &providers);
    let outcomes: Vec<Outcome> = jobs
        .iter()
        .enumerate()
        .map(|(k, j)| {
            if k == 1 {
                Outcome::Failed { error: "rate limited (429)".into() }
            } else {
                Outcome::Values {
                    metrics: vec![Metric {
                        name: "citations".into(),
                        category: Category::Citations,
                        value: MetricValue::Count(k as u64),
                        window: Window::Cumulative,
                        provider: providers[j.provider].name().into(),
                        identity: j.canonical.clone(),
                        as_of: Timestamp { unix_nanos: 0, offset_secs: 0 },
                        source: "u".into(),
                        note: None,
                    }],
                    metadata: None,
                }
            }
        })
        .collect();
    let created = Timestamp { unix_nanos: 42, offset_secs: 0 };
    let snap = assemble_snapshot(&project, &jobs, &providers, outcomes, created);
    assert_eq!(snap.schema_version, 1);
    assert_eq!(snap.tool, "boast");
    assert_eq!(snap.tool_version, "0.3.0");
    assert_eq!(snap.created_at, created);
    assert_eq!(snap.identities, vec!["doi:10.1/x".to_string()]);
    let order: Vec<&str> = snap.results.iter().map(|r| r.provider.as_str()).collect();
    assert_eq!(order, vec!["openalex", "crossref", "dimensions", "europe_pmc", "wikipedia", "altmetric"]);
    assert_eq!(snap.results[4].category, Category::Attention);
    assert!(snap.has_failures());
    assert!(matches!(snap.results[1].outcome, Outcome::Failed { .. }));
    assert_eq!(snap.metrics().len(), 5);
}

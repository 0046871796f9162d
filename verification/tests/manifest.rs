use boast::identity::{Identity, PackageId, PaperId, Registry, RepoHost, RepoId};
use boast::manifest::{Manifest, ManifestError, ManifestProject};

fn entry(ids: &[&str], topic: Option<&str>) -> ManifestProject {
    ManifestProject {
        identities: ids.iter().map(|s| s.to_string()).collect(),
        topic: topic.map(String::from),
    }
}

#[test]
fn to_project_parses_every_identity_kind() {
    let manifest = Manifest {
        projects: vec![entry(&["doi:10.1/x", "github:owner/name", "crates:boast"], None)],
    };
    let project = manifest.projects[0].to_project(0).unwrap();
    assert_eq!(project.identities.len(), 3);
    assert_eq!(project.identities[0], Identity::Paper(PaperId::Doi("10.1/x".into())));
    assert_eq!(
        project.identities[1],
        Identity::Repo(RepoId { host: RepoHost::GitHub, owner: "owner".into(), name: "name".into() })
    );
    assert_eq!(
        project.identities[2],
        Identity::Package(PackageId { registry: Registry::Crates, name: "boast".into() })
    );
}

#[test]
fn a_bad_identity_names_its_project_index() {
    let manifest = Manifest {
        projects: vec![entry(&["doi:10.1/x"], None), entry(&["not a valid identity"], None)],
    };
    let err = manifest.projects[1].to_project(1).unwrap_err();
    assert!(matches!(err, ManifestError::Identity { index: 1, .. }));
    assert!(err.message().contains("project 1"));
}

#[test]
fn rejects_a_manifest_with_no_projects() {
    let err = Manifest { projects: vec![] }.require_projects().unwrap_err();
    assert!(matches!(err, ManifestError::Empty));
    assert_eq!(err.message(), "manifest has no [[project]] entries");
    assert!(Manifest { projects: vec![entry(&["doi:10.1/x"], None)] }.require_projects().is_ok());
}

#[test]
fn from_identities_writes_canonical_text_and_the_topic() {
    let identities = vec![
        Identity::parse("10.1371/journal.pbio.1002195").unwrap(),
        Identity::parse("crates:boast").unwrap(),
    ];
    let manifest = Manifest::from_identities(&identities, Some("bioinformatics"));
    assert_eq!(manifest.projects.len(), 1);
    assert_eq!(
        manifest.projects[0].identities,
        vec!["doi:10.1371/journal.pbio.1002195".to_string(), "crates:boast".to_string()]
    );
    assert_eq!(manifest.projects[0].topic.as_deref(), Some("bioinformatics"));

    // What was written reads back as the same identities.
    let project = manifest.projects[0].to_project(0).unwrap();
    assert_eq!(project.identities, identities);
}

#[test]
fn from_orcid_works_writes_one_project_per_work() {
    let works = vec![PaperId::Doi("10.1/x".into()), PaperId::Pmid("31234567".into())];
    let manifest = Manifest::from_orcid_works(&works, Some("bioinformatics"));
    assert_eq!(manifest.projects.len(), 2);
    assert_eq!(manifest.projects[0].identities, vec!["doi:10.1/x".to_string()]);
    assert_eq!(manifest.projects[1].identities, vec!["pmid:31234567".to_string()]);
    assert_eq!(manifest.projects[1].topic.as_deref(), Some("bioinformatics"));
}

#[test]
fn a_manifest_written_from_identities_reads_back_the_same_identities() {
    let inputs = [
        "https://doi.org/10.1093/bioinformatics/bty191",
        "https://github.com/lh3/minimap2",
        "pmid:29750242",
        "crates:boast",
    ];
    let ids: Vec<Identity> = inputs.iter().map(|s| Identity::parse(s).unwrap()).collect();
    let manifest = Manifest::from_identities(&ids, None);
    let project = manifest.projects[0].to_project(0).unwrap();
    assert_eq!(project.identities, ids);
}

use boast::identity::{Identity, IdentityError, PackageId, PaperId, Registry, RepoHost, RepoId};

#[test]
fn parses_bare_doi() {
    assert_eq!(
        Identity::parse("10.1371/journal.pbio.1002195").unwrap(),
        Identity::Paper(PaperId::Doi("10.1371/journal.pbio.1002195".into()))
    );
}

#[test]
fn parses_doi_prefix_and_url() {
    let want = Identity::Paper(PaperId::Doi("10.1/x".into()));
    assert_eq!(Identity::parse("doi:10.1/x").unwrap(), want);
    assert_eq!(Identity::parse("https://doi.org/10.1/x").unwrap(), want);
}

#[test]
fn parses_pmid() {
    assert_eq!(
        Identity::parse("pmid:31234567").unwrap(),
        Identity::Paper(PaperId::Pmid("31234567".into()))
    );
}

#[test]
fn rejects_unrecognised() {
    assert!(matches!(
        Identity::parse("just-a-word"),
        Err(IdentityError::Unrecognised(_))
    ));
    assert!(matches!(Identity::parse("   "), Err(IdentityError::Empty)));
}

#[test]
fn bare_owner_name_is_a_repo_positional() {
    assert_eq!(
        Identity::parse("BurntSushi/ripgrep").unwrap(),
        Identity::Repo(RepoId {
            host: RepoHost::GitHub,
            owner: "BurntSushi".into(),
            name: "ripgrep".into(),
        })
    );
    assert_eq!(
        Identity::parse("10.1/x").unwrap(),
        Identity::Paper(PaperId::Doi("10.1/x".into()))
    );
}

#[test]
fn parses_github_repo_urls_and_shorthand() {
    let want = RepoId {
        host: RepoHost::GitHub,
        owner: "BurntSushi".into(),
        name: "ripgrep".into(),
    };
    for input in [
        "https://github.com/BurntSushi/ripgrep",
        "github.com/BurntSushi/ripgrep",
        "https://github.com/BurntSushi/ripgrep.git",
        "https://github.com/BurntSushi/ripgrep/tree/master",
        "git@github.com:BurntSushi/ripgrep.git",
    ] {
        assert_eq!(Identity::parse(input).unwrap(), Identity::Repo(want.clone()));
    }
    assert_eq!(RepoId::parse("BurntSushi/ripgrep").unwrap(), want);
    assert!(matches!(
        RepoId::parse("noslash"),
        Err(IdentityError::Unrecognised(_))
    ));
}

#[test]
fn canonical_forms() {
    assert_eq!(Identity::parse("10.1/x").unwrap().canonical(), "doi:10.1/x");
    assert_eq!(Identity::parse("pmid:42").unwrap().canonical(), "pmid:42");
    assert_eq!(
        Identity::Repo(RepoId::parse("BurntSushi/ripgrep").unwrap()).canonical(),
        "github:BurntSushi/ripgrep"
    );
    assert_eq!(Identity::parse("crates:boast").unwrap().canonical(), "crates:boast");
}

#[test]
fn parses_package_registry_colon_name() {
    assert_eq!(
        Identity::parse("crates:boast").unwrap(),
        Identity::Package(PackageId {
            registry: Registry::Crates,
            name: "boast".into(),
        })
    );
    assert_eq!(
        PackageId::parse("crates:boast").unwrap(),
        PackageId {
            registry: Registry::Crates,
            name: "boast".into(),
        }
    );
}

#[test]
fn unknown_registry_is_a_clear_error() {
    assert_eq!(
        PackageId::parse("bioconda:samtools"),
        Err(IdentityError::UnknownRegistry("bioconda".into()))
    );
    assert!(matches!(
        Identity::parse("pypi:pysam"),
        Err(IdentityError::UnknownRegistry(r)) if r == "pypi"
    ));
}

#[test]
fn package_parse_rejects_missing_name_or_colon() {
    assert!(matches!(
        PackageId::parse("crates:"),
        Err(IdentityError::Unrecognised(_))
    ));
    assert!(matches!(
        PackageId::parse("crates"),
        Err(IdentityError::Unrecognised(_))
    ));
}

#[test]
fn bare_github_colon_shorthand_is_still_a_repo_not_a_package() {
    assert_eq!(
        Identity::parse("github:BurntSushi/ripgrep").unwrap(),
        Identity::Repo(RepoId {
            host: RepoHost::GitHub,
            owner: "BurntSushi".into(),
            name: "ripgrep".into(),
        })
    );
}

#[test]
fn an_orcid_is_refused_with_its_own_error() {
    assert!(matches!(
        Identity::parse("0000-0002-1825-0097"),
        Err(IdentityError::IsOrcid(s)) if s == "0000-0002-1825-0097"
    ));
    let msg = Identity::parse("orcid:0000-0002-1825-0097").unwrap_err().message();
    assert!(msg.contains("boast init --orcid"));
}

#[test]
fn identity_error_messages_name_the_input() {
    assert_eq!(IdentityError::Empty.message(), "empty identifier");
    assert_eq!(
        IdentityError::UnknownRegistry("pypi".into()).message(),
        "unknown package registry 'pypi' (supported: crates)"
    );
}

#[test]
fn canonical_text_reads_back_as_the_same_identity() {
    for input in [
        "10.1371/journal.pbio.1002195",
        "https://doi.org/10.1093/bioinformatics/bty191",
        "pmid:31234567",
        "https://github.com/lh3/minimap2",
        "BurntSushi/ripgrep",
        "crates:boast",
    ] {
        let id = Identity::parse(input).unwrap();
        assert_eq!(Identity::parse(&id.canonical()).unwrap(), id, "{input}");
    }
}

#[test]
fn a_repository_name_ending_in_dot_git_does_not_read_back() {
    let id = Identity::parse("owner/name.git/tree").unwrap();
    assert_eq!(id.canonical(), "github:owner/name.git");
    let again = Identity::parse(&id.canonical()).unwrap();
    assert_eq!(again.canonical(), "github:owner/name");
}

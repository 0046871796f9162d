use boast::cli::{
    is_global_flag, manifest_positional, normalize_args, orcid_conflicts, parse_at_least_one, parse_identifier_lines,
    parse_orcids, sanitize_filename, snapshot_file_name, AboutArgs, IdentitySourceArgs,
};
use boast::identity::Identity;

fn norm(args: &[&str]) -> Vec<String> {
    normalize_args(args.iter().map(|s| s.to_string()).collect())
}

fn about(targets: &[&str], repos: &[&str]) -> AboutArgs {
    AboutArgs {
        sources: IdentitySourceArgs {
            targets: targets.iter().map(|s| s.to_string()).collect(),
            repos: repos.iter().map(|s| s.to_string()).collect(),
            packages: vec![],
            from_file: vec![],
        },
        topic: None,
        snapshot_dir: "snapshots".into(),
        no_save: false,
        save: None,
        threads: 8,
    }
}

#[test]
fn bare_identifier_gets_implicit_about() {
    assert_eq!(norm(&["boast", "10.1/x"]), vec!["boast", "about", "10.1/x"]);
    assert_eq!(norm(&["boast", "pmid:42"]), vec!["boast", "about", "pmid:42"]);
    assert_eq!(
        norm(&["boast", "owner/repo", "10.1/x"]),
        vec!["boast", "about", "owner/repo", "10.1/x"]
    );
}

#[test]
fn explicit_about_is_untouched() {
    assert_eq!(norm(&["boast", "about", "10.1/x"]), vec!["boast", "about", "10.1/x"]);
}

#[test]
fn about_flags_without_subcommand_get_implicit_about() {
    assert_eq!(
        norm(&["boast", "--repo", "owner/name"]),
        vec!["boast", "about", "--repo", "owner/name"]
    );
    assert_eq!(
        norm(&["boast", "-d", "out", "10.1/x"]),
        vec!["boast", "about", "-d", "out", "10.1/x"]
    );
}

#[test]
fn global_flags_are_skipped_and_preserved() {
    assert_eq!(norm(&["boast", "-q", "10.1/x"]), vec!["boast", "-q", "about", "10.1/x"]);
    assert_eq!(
        norm(&["boast", "-vv", "about", "10.1/x"]),
        vec!["boast", "-vv", "about", "10.1/x"]
    );
    assert_eq!(norm(&["boast", "--version"]), vec!["boast", "--version"]);
}

#[test]
fn render_is_a_real_subcommand_never_swallowed_into_an_implicit_about() {
    assert_eq!(norm(&["boast", "render", "snap.json"]), vec!["boast", "render", "snap.json"]);
}

#[test]
fn diff_is_a_real_subcommand_never_swallowed_into_an_implicit_about() {
    assert_eq!(
        norm(&["boast", "diff", "old.json", "new.json"]),
        vec!["boast", "diff", "old.json", "new.json"]
    );
}

#[test]
fn providers_is_a_real_subcommand_never_swallowed_into_an_implicit_about() {
    assert_eq!(norm(&["boast", "providers"]), vec!["boast", "providers"]);
}

#[test]
fn init_is_a_real_subcommand_never_swallowed_into_an_implicit_about() {
    assert_eq!(norm(&["boast", "init", "10.1/x"]), vec!["boast", "init", "10.1/x"]);
}

#[test]
fn parses_identifier_file_with_comments_and_mixed_kinds() {
    let content = "\
# my grant tools
10.1371/journal.pbio.1002195

  samtools/samtools
pmid:31234567
";
    let ids = parse_identifier_lines(content).unwrap();
    assert_eq!(ids.len(), 3);
    assert!(matches!(ids[1], Identity::Repo(_)));

    let err = parse_identifier_lines("10.1/x\nnot an id\n").unwrap_err();
    assert!(err.contains("line 2"));
}

#[test]
fn sanitize_filename_replaces_unsafe_characters() {
    assert_eq!(sanitize_filename("doi:10.1/x"), "doi-10.1-x");
    assert_eq!(sanitize_filename("github:owner/name"), "github-owner-name");
}

#[test]
fn a_single_toml_positional_is_treated_as_a_manifest() {
    let a = about(&["manifest.toml"], &[]);
    assert!(manifest_positional(&a).is_some());
    assert_eq!(manifest_positional(&a).unwrap(), "manifest.toml");
}

#[test]
fn a_toml_positional_combined_with_other_identity_sources_is_not_a_manifest() {
    let a = about(&["manifest.toml"], &["owner/name"]);
    assert!(manifest_positional(&a).is_none());
}

#[test]
fn a_non_toml_positional_is_not_a_manifest() {
    let a = about(&["10.1/x"], &[]);
    assert!(manifest_positional(&a).is_none());
}

#[test]
fn threads_flag_rejects_zero_with_a_clear_error() {
    let err = parse_at_least_one("0").unwrap_err();
    assert!(err.contains("at least 1"));
}

#[test]
fn threads_value_parser_accepts_counts_and_names_bad_input() {
    assert_eq!(parse_at_least_one("4"), Ok(4));
    assert_eq!(parse_at_least_one("+12"), Ok(12));
    assert_eq!(parse_at_least_one("x"), Err("'x' is not a valid number".to_string()));
    assert_eq!(parse_at_least_one(""), Err("'' is not a valid number".to_string()));
}

#[test]
fn global_flag_recognition() {
    assert!(is_global_flag("-vvv"));
    assert!(is_global_flag("-v"));
    assert!(!is_global_flag("-vx"));
    assert!(!is_global_flag("--repo"));
}

#[test]
fn toml_extension_is_case_insensitive_and_needs_a_name() {
    assert!(manifest_positional(&about(&["dir/Projects.TOML"], &[])).is_some());
    assert!(manifest_positional(&about(&[".toml"], &[])).is_none());
}

#[test]
fn snapshot_file_names_carry_the_suffix_when_given() {
    assert_eq!(snapshot_file_name("20240101T000000Z", None), "20240101T000000Z.json");
    assert_eq!(
        snapshot_file_name("20240101T000000Z", Some("doi-10.1-x")),
        "20240101T000000Z-doi-10.1-x.json"
    );
}

#[test]
fn init_orcid_combined_with_other_identity_sources_is_rejected() {
    let with_repo = IdentitySourceArgs {
        targets: vec![],
        repos: vec!["owner/name".into()],
        packages: vec![],
        from_file: vec![],
    };
    assert!(orcid_conflicts(&with_repo));
    let alone = IdentitySourceArgs { targets: vec![], repos: vec![], packages: vec![], from_file: vec![] };
    assert!(!orcid_conflicts(&alone));
    assert!(parse_orcids(&vec!["0000-0002-1825-0097".to_string()]).is_ok());
}

#[test]
fn init_rejects_a_malformed_orcid_value() {
    let err = parse_orcids(&vec!["not-an-orcid".to_string()]).unwrap_err();
    assert_eq!(err, "'not-an-orcid' is not a valid ORCID iD (expected e.g. 0000-0002-1825-0097)");
}

#[test]
fn save_is_refused_beside_a_manifest_input() {
    let mut args = about(&["project.toml"], &[]);
    assert_eq!(boast::cli::save_conflict(&args), None);
    args.save = Some("out.toml".into());
    assert_eq!(
        boast::cli::save_conflict(&args).as_deref(),
        Some("--save out.toml cannot be combined with a Manifest input (project.toml); it already is one")
    );
    let mut plain = about(&["owner/name"], &[]);
    plain.save = Some("out.toml".into());
    assert_eq!(boast::cli::save_conflict(&plain), None);
}

#[test]
fn an_orcid_expansion_with_nothing_measurable_writes_nothing() {
    assert_eq!(
        boast::cli::nothing_identified(0, 2).as_deref(),
        Some("no works with a DOI or PMID found across 2 ORCID record(s)")
    );
    assert_eq!(boast::cli::nothing_identified(3, 2), None);
}

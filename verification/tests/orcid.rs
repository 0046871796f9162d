use boast::identity::{OrcidId, PaperId};
use boast::model::Timestamp;
use boast::orcid::{
    classify_group, expansion_of, parse_i32, render_header, render_unidentified_block, settle_works,
    works_url, OrcidError, OrcidExternalId, OrcidGroup, OrcidWork, OrcidWorkSummary,
};
use boast::transport::{HttpResponse, TransportError};

fn orcid() -> OrcidId {
    OrcidId::parse("0000-0002-1825-0097").unwrap()
}

fn at_seconds(s: i128) -> Timestamp {
    Timestamp { unix_nanos: s * 1_000_000_000, offset_secs: 0 }
}

fn ext(id_type: &str, value: &str, relationship: Option<&str>) -> OrcidExternalId {
    OrcidExternalId {
        id_type: id_type.into(),
        value: value.into(),
        relationship: relationship.map(String::from),
    }
}

#[test]
fn render_unidentified_block_lists_title_year_and_type_as_a_commented_project() {
    let work = OrcidWork::Unidentified {
        title: Some("A Poster on Nothing in Particular".to_string()),
        year: Some(2020),
        kind: Some("conference-poster".to_string()),
    };
    let out = render_unidentified_block(&[&work]);
    assert!(out.contains("1 work with no DOI or PMID"));
    assert!(out.contains("\"A Poster on Nothing in Particular\" (2020, conference-poster)"));
    assert!(out.contains("# [[project]]"));
    assert!(out.contains("# identities = [\"doi:\"]"));
    // Every line must be commented, so the block is inert to the parser.
    assert!(out.lines().all(|l| l.starts_with('#')));
}

#[test]
fn render_unidentified_block_falls_back_for_missing_metadata() {
    let work = OrcidWork::Unidentified { title: None, year: None, kind: None };
    let out = render_unidentified_block(&[&work]);
    assert!(out.contains("\"untitled work\" (n.d., unknown)"));
}

#[test]
fn render_unidentified_block_pluralises_the_count() {
    let a = OrcidWork::Unidentified { title: None, year: None, kind: None };
    let b = OrcidWork::Unidentified { title: Some("T".into()), year: Some(1999), kind: None };
    let out = render_unidentified_block(&[&a, &b]);
    assert!(out.contains("2 works with no DOI or PMID"));
    assert!(out.contains("\"T\" (1999, unknown)"));
    assert!(out.lines().all(|l| l.starts_with('#')));
}

#[test]
fn render_header_computes_written_from_total_minus_skipped_and_names_every_orcid() {
    let a = OrcidId::parse("0000-0002-1825-0097").unwrap();
    let b = OrcidId::parse("0000-0001-2345-6789").unwrap();
    let header = render_header(&[a, b], 190, 40, at_seconds(1785283200), 6);
    assert!(header.contains("--orcid 0000-0002-1825-0097 --orcid 0000-0001-2345-6789"));
    assert!(header.contains("190 works"));
    assert!(header.contains("150 written below; 40 skipped"));
    assert!(header.contains("~6 API requests"));
    assert!(header.contains("boast about"));
    assert!(header.contains("--include-unidentified"));
    assert!(header.contains("2026-07-29"));
}

#[test]
fn render_header_singular_work_gets_no_trailing_s() {
    let header = render_header(&[orcid()], 1, 0, at_seconds(1785283200), 6);
    assert!(header.contains("1 work.") && !header.contains("1 works"));
}

#[test]
fn a_self_doi_wins_over_a_self_pmid_and_context_ids_are_ignored() {
    let g = OrcidGroup {
        external_ids: vec![
            ext("issn", "1234-5678", Some("part-of")),
            ext("pmid", "31234567", Some("self")),
            ext("DOI", "10.1/x", Some("self")),
        ],
        summaries: vec![],
    };
    assert_eq!(classify_group(&g), OrcidWork::Identified { id: PaperId::Doi("10.1/x".into()) });

    let only_pmid = OrcidGroup {
        external_ids: vec![ext("doi", "10.9/part", Some("part-of")), ext("pmid", "31234567", Some("self"))],
        summaries: vec![],
    };
    assert_eq!(
        classify_group(&only_pmid),
        OrcidWork::Identified { id: PaperId::Pmid("31234567".into()) }
    );
}

#[test]
fn a_group_without_identifiers_is_described_by_its_first_summary() {
    let g = OrcidGroup {
        external_ids: vec![],
        summaries: vec![OrcidWorkSummary {
            title: Some("Poster".into()),
            kind: Some("conference-poster".into()),
            year: Some("2020".into()),
        }],
    };
    assert_eq!(
        classify_group(&g),
        OrcidWork::Unidentified {
            title: Some("Poster".into()),
            year: Some(2020),
            kind: Some("conference-poster".into())
        }
    );
    let bare = OrcidGroup { external_ids: vec![], summaries: vec![] };
    assert_eq!(classify_group(&bare), OrcidWork::Unidentified { title: None, year: None, kind: None });
}

#[test]
fn expansion_keeps_one_work_per_group_in_order() {
    let groups = vec![
        OrcidGroup { external_ids: vec![ext("doi", "10.1/a", Some("self"))], summaries: vec![] },
        OrcidGroup { external_ids: vec![], summaries: vec![] },
        OrcidGroup { external_ids: vec![ext("doi", "10.1/b", Some("self"))], summaries: vec![] },
    ];
    let e = expansion_of(&groups);
    let ids = e.identified();
    assert_eq!(ids.len(), 2);
    assert_eq!(*ids[0], PaperId::Doi("10.1/a".into()));
    assert_eq!(*ids[1], PaperId::Doi("10.1/b".into()));
    assert_eq!(e.unidentified().len(), 1);
}

#[test]
fn parse_i32_reads_signed_integers_in_range() {
    assert_eq!(parse_i32("2020"), Some(2020));
    assert_eq!(parse_i32("-7"), Some(-7));
    assert_eq!(parse_i32("+7"), Some(7));
    assert_eq!(parse_i32(""), None);
    assert_eq!(parse_i32("20x"), None);
    assert_eq!(parse_i32("2147483648"), None);
    assert_eq!(parse_i32("-2147483648"), Some(i32::MIN));
}

#[test]
fn works_url_and_settling_the_works_reply() {
    assert_eq!(works_url(&orcid()), "https://pub.orcid.org/v3.0/0000-0002-1825-0097/works");
    let resp = |status: u16| HttpResponse { status, body: String::new(), url: String::new(), headers: vec![] };
    assert!(settle_works(&orcid(), Ok(resp(200))).is_ok());
    let nf = settle_works(&orcid(), Ok(resp(404))).unwrap_err();
    assert_eq!(nf.message(), "no ORCID record found for 0000-0002-1825-0097");
    let st = settle_works(&orcid(), Ok(resp(500))).unwrap_err();
    assert_eq!(st.message(), "ORCID responded with status 500 for 0000-0002-1825-0097");
    let te = settle_works(&orcid(), Err(TransportError::Timeout)).unwrap_err();
    assert!(matches!(te, OrcidError::Transport(TransportError::Timeout)));
}

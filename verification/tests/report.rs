use boast::identity::{Identity, PaperId};
use boast::model::{Category, FetchResult, Metric, MetricValue, Outcome, Real, Snapshot, Timestamp, Window};
use boast::providers::altmetric::Altmetric;
use boast::report::{render_markdown, render_prose, render_terminal};

fn real_value(x: f64) -> MetricValue {
    MetricValue::Real(Real { bits: x.to_bits(), shown: format!("{x:.2}") })
}

/// The Altmetric Provider's own wording for a missing key.
fn no_key_note() -> String {
    let doi = Identity::Paper(PaperId::Doi("10.1/x".into()));
    match Altmetric::with_key(None).request_urls(&doi) {
        Err(Outcome::NotApplicable { note }) => note,
        other => panic!("expected NotApplicable, got {other:?}"),
    }
}

fn snapshot_with(results: Vec<FetchResult>) -> Snapshot {
    Snapshot {
        schema_version: 1,
        tool: "boast".into(),
        tool_version: "0.1.0".into(),
        created_at: Timestamp { unix_nanos: 0, offset_secs: 0 },
        identities: vec!["doi:10.1/x".into()],
        results,
    }
}

fn metric(name: &str, value: MetricValue) -> Metric {
    Metric {
        name: name.into(),
        category: Category::Citations,
        value,
        window: Window::Cumulative,
        provider: "openalex".into(),
        identity: "doi:10.1/x".into(),
        as_of: Timestamp { unix_nanos: 0, offset_secs: 0 },
        source: "https://api.openalex.org/works/doi:10.1/x".into(),
        note: None,
    }
}

#[test]
fn long_detail_moves_to_the_notices_footer_short_detail_stays_inline() {
    let long_note = "x".repeat(120);
    let snap = snapshot_with(vec![FetchResult {
        provider: "dimensions".into(),
        identity: "doi:10.1/x".into(),
        category: Category::Citations,
        outcome: Outcome::Values {
            metrics: vec![
                Metric {
                    note: Some(long_note.clone()),
                    provider: "dimensions".into(),
                    ..metric("citations", MetricValue::Count(5))
                },
                Metric {
                    note: Some("short".into()),
                    provider: "dimensions".into(),
                    ..metric("fcr", real_value(1.0))
                },
            ],
            metadata: None,
        },
    }]);
    let out = render_terminal(&snap);
    assert!(out.contains("── Notices ──"));
    // The long note lives in the footer, not appended to its row.
    let citations_line = out.lines().find(|l| l.contains("citations")).unwrap();
    assert!(!citations_line.contains(&long_note));
    let footer_line = out.lines().find(|l| l.contains(&long_note)).unwrap();
    assert!(!footer_line.contains("citations"));
    // The short note still shares a line with its row.
    let short_line = out.lines().find(|l| l.contains("short")).unwrap();
    assert!(short_line.contains("fcr"));
}

#[test]
fn identical_notices_across_identities_are_shown_once() {
    let notice = "x".repeat(120);
    let dimensions_metric = |identity: &str| Metric {
        note: Some(notice.clone()),
        provider: "dimensions".into(),
        identity: identity.into(),
        ..metric("citations", MetricValue::Count(5))
    };
    let mut snap = snapshot_with(vec![
        FetchResult {
            provider: "dimensions".into(),
            identity: "doi:10.1/x".into(),
            category: Category::Citations,
            outcome: Outcome::Values {
                metrics: vec![dimensions_metric("doi:10.1/x")],
                metadata: None,
            },
        },
        FetchResult {
            provider: "dimensions".into(),
            identity: "doi:10.2/y".into(),
            category: Category::Citations,
            outcome: Outcome::Values {
                metrics: vec![dimensions_metric("doi:10.2/y")],
                metadata: None,
            },
        },
    ]);
    snap.identities = vec!["doi:10.1/x".into(), "doi:10.2/y".into()];

    let out = render_terminal(&snap);
    assert_eq!(
        out.matches(notice.as_str()).count(),
        1,
        "a notice shared by two Identities must appear once per run, not once per Identity"
    );
}

#[test]
fn long_not_applicable_and_failed_messages_reach_provider_notes_in_both_renderers() {
    // A NotApplicable/Failed message too long to show inline must still
    // reach both renderers, in the Provider Notes section.
    let na_note = "x".repeat(141);
    let failed_error = "y".repeat(155);
    let mut snap = snapshot_with(vec![
        FetchResult {
            provider: "dimensions".into(),
            identity: "doi:10.1/x".into(),
            category: Category::Citations,
            outcome: Outcome::NotApplicable {
                note: na_note.clone(),
            },
        },
        FetchResult {
            provider: "altmetric".into(),
            identity: "doi:10.2/y".into(),
            category: Category::Attention,
            outcome: Outcome::Failed {
                error: failed_error.clone(),
            },
        },
    ]);
    snap.identities = vec!["doi:10.1/x".into(), "doi:10.2/y".into()];

    let terminal = render_terminal(&snap);
    assert!(
        terminal.contains(&na_note),
        "long NotApplicable note missing from terminal output"
    );
    assert!(
        terminal.contains(&failed_error),
        "long Failed error missing from terminal output"
    );
    assert!(terminal.contains("── Provider Notes ──"));

    let markdown = render_markdown(&snap);
    assert!(
        markdown.contains(&na_note),
        "long NotApplicable note missing from markdown output"
    );
    assert!(
        markdown.contains(&failed_error),
        "long Failed error missing from markdown output"
    );
    assert!(markdown.contains("## Provider Notes"));
}

#[test]
fn short_not_applicable_note_still_renders_inline_control() {
    let mut snap = snapshot_with(vec![FetchResult {
        provider: "openalex".into(),
        identity: "doi:10.2/y".into(),
        category: Category::Citations,
        outcome: Outcome::NotApplicable {
            note: "not found in OpenAlex".into(),
        },
    }]);
    snap.identities = vec!["doi:10.2/y".into()];

    let terminal = render_terminal(&snap);
    let row = terminal.lines().find(|l| l.contains("openalex")).unwrap();
    assert!(row.contains("not found in OpenAlex"));
    assert!(!terminal.contains("── Provider Notes ──"));
}

#[test]
fn long_metric_note_still_lands_in_notices_not_provider_notes() {
    let long_note = "x".repeat(120);
    let snap = snapshot_with(vec![FetchResult {
        provider: "dimensions".into(),
        identity: "doi:10.1/x".into(),
        category: Category::Citations,
        outcome: Outcome::Values {
            metrics: vec![Metric {
                note: Some(long_note.clone()),
                provider: "dimensions".into(),
                ..metric("citations", MetricValue::Count(5))
            }],
            metadata: None,
        },
    }]);
    let out = render_terminal(&snap);
    assert!(out.contains("── Notices ──"));
    assert!(!out.contains("── Provider Notes ──"));
    let notices_and_after = out.split("── Notices ──").nth(1).unwrap();
    assert!(!notices_and_after.contains("Provider Notes"));
}

#[test]
fn one_message_shared_by_several_identities_on_one_provider_and_kind_is_one_entry() {
    let note = "n".repeat(90);
    let mut snap = snapshot_with(vec![
        FetchResult {
            provider: "altmetric".into(),
            identity: "doi:10.1/x".into(),
            category: Category::Attention,
            outcome: Outcome::NotApplicable { note: note.clone() },
        },
        FetchResult {
            provider: "altmetric".into(),
            identity: "doi:10.2/y".into(),
            category: Category::Attention,
            outcome: Outcome::NotApplicable { note: note.clone() },
        },
    ]);
    snap.identities = vec!["doi:10.1/x".into(), "doi:10.2/y".into()];

    let out = render_terminal(&snap);
    assert_eq!(
        out.matches(note.as_str()).count(),
        1,
        "one message shared by two Identities on the same Provider+kind must appear once"
    );
    assert!(out.contains("doi:10.1/x"));
    assert!(out.contains("doi:10.2/y"));
}

#[test]
fn identical_text_from_two_providers_produces_two_entries() {
    let note = "n".repeat(90);
    let mut snap = snapshot_with(vec![
        FetchResult {
            provider: "altmetric".into(),
            identity: "doi:10.1/x".into(),
            category: Category::Attention,
            outcome: Outcome::NotApplicable { note: note.clone() },
        },
        FetchResult {
            provider: "dimensions".into(),
            identity: "doi:10.1/x".into(),
            category: Category::Citations,
            outcome: Outcome::NotApplicable { note: note.clone() },
        },
    ]);
    snap.identities = vec!["doi:10.1/x".into()];

    let out = render_terminal(&snap);
    assert_eq!(
        out.matches(note.as_str()).count(),
        2,
        "byte-identical text from two Providers must not merge"
    );
    assert!(out.contains("altmetric"));
    assert!(out.contains("dimensions"));
}

#[test]
fn not_applicable_and_failed_with_identical_text_produce_two_entries() {
    let text = "z".repeat(90);
    let mut snap = snapshot_with(vec![
        FetchResult {
            provider: "altmetric".into(),
            identity: "doi:10.1/x".into(),
            category: Category::Attention,
            outcome: Outcome::NotApplicable { note: text.clone() },
        },
        FetchResult {
            provider: "altmetric".into(),
            identity: "doi:10.2/y".into(),
            category: Category::Attention,
            outcome: Outcome::Failed {
                error: text.clone(),
            },
        },
    ]);
    snap.identities = vec!["doi:10.1/x".into(), "doi:10.2/y".into()];

    let out = render_terminal(&snap);
    assert_eq!(
        out.matches(text.as_str()).count(),
        2,
        "a NotApplicable and a Failed with byte-identical text must not merge"
    );
}

#[test]
fn provider_notes_rows_gain_no_marker_pointer_or_preview() {
    let note = "n".repeat(90);
    let snap = snapshot_with(vec![FetchResult {
        provider: "altmetric".into(),
        identity: "doi:10.1/x".into(),
        category: Category::Attention,
        outcome: Outcome::NotApplicable { note: note.clone() },
    }]);
    let out = render_terminal(&snap);
    let row = out
        .lines()
        .find(|l| l.contains("altmetric") && l.contains("N/A"))
        .unwrap();
    // The row itself carries no truncated preview and no "see below"
    // pointer — the footer is the only place the text appears.
    assert!(!row.contains(&note[..20]));
    assert!(!row.to_lowercase().contains("see below"));
}

#[test]
fn renders_values_grouped_under_category() {
    let snap = snapshot_with(vec![FetchResult {
        provider: "openalex".into(),
        identity: "doi:10.1/x".into(),
        category: Category::Citations,
        outcome: Outcome::Values {
            metrics: vec![metric("citations", MetricValue::Count(1421))],
            metadata: None,
        },
    }]);
    let out = render_terminal(&snap);
    assert!(out.contains("Citations"));
    assert!(out.contains("citations"));
    assert!(out.contains("1421"));
    assert!(!out.contains("partial snapshot"));
}

#[test]
fn a_single_providers_metrics_can_split_across_categories() {
    // OpenAlex's citations metrics and its open-access status share one
    // FetchResult but belong to different Categories in the Report.
    let snap = snapshot_with(vec![FetchResult {
        provider: "openalex".into(),
        identity: "doi:10.1/x".into(),
        category: Category::Citations,
        outcome: Outcome::Values {
            metrics: vec![
                metric("citations", MetricValue::Count(1421)),
                Metric {
                    category: Category::Attention,
                    ..metric("open_access", MetricValue::Text("gold".into()))
                },
            ],
            metadata: None,
        },
    }]);
    let out = render_terminal(&snap);
    assert!(out.contains("── Citations ──"));
    assert!(out.contains("── Attention ──"));
    let citations_block = out.split("── Attention ──").next().unwrap();
    assert!(citations_block.contains("citations"));
    assert!(!citations_block.contains("open_access"));
    let attention_block = out.split("── Attention ──").nth(1).unwrap();
    assert!(attention_block.contains("open_access"));
    assert!(attention_block.contains("gold"));
}

#[test]
fn shows_na_and_failed_distinctly_never_zero() {
    let mut snap = snapshot_with(vec![
        FetchResult {
            provider: "openalex".into(),
            identity: "doi:10.2/y".into(),
            category: Category::Citations,
            outcome: Outcome::NotApplicable {
                note: "not found in OpenAlex".into(),
            },
        },
        FetchResult {
            provider: "openalex".into(),
            identity: "doi:10.3/z".into(),
            category: Category::Citations,
            outcome: Outcome::Failed {
                error: "rate limited (429)".into(),
            },
        },
    ]);
    snap.identities = vec!["doi:10.2/y".into(), "doi:10.3/z".into()];
    let out = render_terminal(&snap);
    assert!(out.contains("N/A"));
    assert!(out.contains("FAILED"));
    assert!(!out.contains(" 0 "));
    assert!(out.contains("partial snapshot"));
}

#[test]
fn a_key_gated_providers_no_key_reason_is_visible_in_the_rendered_report_not_just_the_outcome()
{
    // The no-key reason must reach the rendered Attention section, in the
    // Provider's own words.
    let snap = snapshot_with(vec![FetchResult {
        provider: "altmetric".into(),
        identity: "doi:10.1/x".into(),
        category: Category::Attention,
        outcome: Outcome::NotApplicable {
            note: no_key_note(),
        },
    }]);
    let terminal = render_terminal(&snap);
    assert!(terminal.contains("── Attention ──"));
    assert!(terminal.contains("altmetric"));
    assert!(terminal.contains("N/A"));
    assert!(terminal.contains(no_key_note().as_str()));

    let markdown = render_markdown(&snap);
    assert!(markdown.contains("### Attention"));
    assert!(markdown.contains(no_key_note().as_str()));
}

#[test]
fn groups_results_under_per_identity_banners() {
    let mut snap = snapshot_with(vec![
        FetchResult {
            provider: "openalex".into(),
            identity: "doi:10.1/x".into(),
            category: Category::Citations,
            outcome: Outcome::Values {
                metrics: vec![metric("citations", MetricValue::Count(1421))],
                metadata: None,
            },
        },
        FetchResult {
            provider: "github".into(),
            identity: "github:o/n".into(),
            category: Category::Code,
            outcome: Outcome::Values {
                metrics: vec![Metric {
                    category: Category::Code,
                    provider: "github".into(),
                    identity: "github:o/n".into(),
                    ..metric("stars", MetricValue::Count(42))
                }],
                metadata: None,
            },
        },
    ]);
    snap.identities = vec!["doi:10.1/x".into(), "github:o/n".into()];
    let out = render_terminal(&snap);
    assert!(out.contains("━━ doi:10.1/x ━━"));
    assert!(out.contains("━━ github:o/n ━━"));
    // The DOI banner precedes its Citations block; the repo banner its Code block.
    let doi_pos = out.find("doi:10.1/x").unwrap();
    let repo_pos = out.find("github:o/n").unwrap();
    assert!(doi_pos < repo_pos);
    assert!(out.contains("stars"));
}

fn downloads_metric(provider: &str, identity: &str, value: u64, window: Window) -> Metric {
    Metric {
        name: "downloads".into(),
        category: Category::Downloads,
        value: MetricValue::Count(value),
        window,
        provider: provider.into(),
        identity: identity.into(),
        as_of: Timestamp { unix_nanos: 0, offset_secs: 0 },
        source: format!("https://example.com/{provider}"),
        note: None,
    }
}

fn downloads_result(provider: &str, identity: &str, value: u64, window: Window) -> FetchResult {
    FetchResult {
        provider: provider.into(),
        identity: identity.into(),
        category: Category::Downloads,
        outcome: Outcome::Values {
            metrics: vec![downloads_metric(provider, identity, value, window)],
            metadata: None,
        },
    }
}

/// GitHub's `release_downloads` Metric displays under Code, not Downloads,
/// but still counts toward the Downloads Rollup.
fn release_downloads_result(identity: &str, value: u64) -> FetchResult {
    FetchResult {
        provider: "github".into(),
        identity: identity.into(),
        category: Category::Code,
        outcome: Outcome::Values {
            metrics: vec![Metric {
                name: "release_downloads".into(),
                category: Category::Code,
                value: MetricValue::Count(value),
                window: Window::Cumulative,
                provider: "github".into(),
                identity: identity.into(),
                as_of: Timestamp { unix_nanos: 0, offset_secs: 0 },
                source: "https://api.github.com/repos/owner/name/releases".into(),
                note: None,
            }],
            metadata: None,
        },
    }
}

#[test]
fn shows_a_labelled_rollup_across_channels_with_a_shared_window() {
    let mut snap = snapshot_with(vec![
        downloads_result("crates.io", "crates:boast", 100, Window::Cumulative),
        downloads_result("bioconda", "conda:bioconda/boast", 50, Window::Cumulative),
    ]);
    snap.identities = vec!["crates:boast".into(), "conda:bioconda/boast".into()];

    let out = render_terminal(&snap);
    assert!(out.contains("Downloads Rollup"));
    assert!(out.contains("derived"));
    assert!(out.contains("150")); // the summed total
                                  // Named by identity so two Identities on the same provider (e.g. two
                                  // crates.io packages) would still be distinguishable.
    assert!(out.contains("crates:boast (100)"));
    assert!(out.contains("conda:bioconda/boast (50)"));
}

#[test]
fn rollup_distinguishes_two_identities_on_the_same_provider() {
    let mut snap = snapshot_with(vec![
        downloads_result("crates.io", "crates:boast", 100, Window::Cumulative),
        downloads_result("crates.io", "crates:boast-cli", 25, Window::Cumulative),
    ]);
    snap.identities = vec!["crates:boast".into(), "crates:boast-cli".into()];

    let out = render_terminal(&snap);
    assert!(out.contains("125")); // the summed total
    assert!(out.contains("crates:boast (100)"));
    assert!(out.contains("crates:boast-cli (25)"));
}

#[test]
fn no_rollup_when_windows_are_incompatible_or_theres_only_one_channel() {
    let mut snap = snapshot_with(vec![downloads_result(
        "crates.io",
        "crates:boast",
        100,
        Window::Cumulative,
    )]);
    snap.identities = vec!["crates:boast".into()];
    assert!(!render_terminal(&snap).contains("Rollup"));

    let mut snap = snapshot_with(vec![
        downloads_result("crates.io", "crates:boast", 100, Window::Cumulative),
        downloads_result(
            "homebrew",
            "homebrew:boast",
            50,
            Window::Trailing { days: 30 },
        ),
    ]);
    snap.identities = vec!["crates:boast".into(), "homebrew:boast".into()];
    assert!(!render_terminal(&snap).contains("Rollup"));
}

#[test]
fn two_rollup_groups_share_one_heading() {
    let mut snap = snapshot_with(vec![
        downloads_result("crates.io", "crates:boast", 100, Window::Cumulative),
        downloads_result("bioconda", "conda:bioconda/boast", 50, Window::Cumulative),
        downloads_result("pypi", "pypi:boast", 7, Window::Trailing { days: 30 }),
        downloads_result(
            "homebrew",
            "homebrew:boast",
            3,
            Window::Trailing { days: 30 },
        ),
    ]);
    snap.identities = vec![
        "crates:boast".into(),
        "conda:bioconda/boast".into(),
        "pypi:boast".into(),
        "homebrew:boast".into(),
    ];

    let out = render_terminal(&snap);
    assert_eq!(out.matches("Downloads Rollup").count(), 1);
    assert!(out.contains("150 all-time"));
    assert!(out.contains("10 last 30 days"));
}

#[test]
fn github_release_downloads_row_stays_under_code_but_still_joins_the_rollup() {
    let mut snap = snapshot_with(vec![
        downloads_result("crates.io", "crates:boast", 100, Window::Cumulative),
        release_downloads_result("github:owner/name", 50),
    ]);
    snap.identities = vec!["crates:boast".into(), "github:owner/name".into()];

    let out = render_terminal(&snap);
    // The row itself renders in its own Identity's Code section, not Downloads.
    let github_block = out.split("━━ github:owner/name ━━").nth(1).unwrap();
    assert!(github_block.contains("── Code ──"));
    assert!(github_block.contains("release_downloads"));
    assert!(!github_block.contains("── Downloads ──"));
    // But it still contributes to the Rollup total.
    assert!(out.contains("Downloads Rollup"));
    assert!(out.contains("150")); // 100 (crates.io) + 50 (release_downloads)
}

// -- render_markdown --------------------------------------------------

#[test]
fn render_markdown_groups_values_under_a_category_table() {
    let snap = snapshot_with(vec![FetchResult {
        provider: "openalex".into(),
        identity: "doi:10.1/x".into(),
        category: Category::Citations,
        outcome: Outcome::Values {
            metrics: vec![metric("citations", MetricValue::Count(1421))],
            metadata: None,
        },
    }]);
    let out = render_markdown(&snap);
    assert!(out.contains("### Citations"));
    assert!(out.contains("| Metric | Value | Window | Provider | Detail |"));
    assert!(out.contains("| citations | 1421 | all-time |"));
    assert!(!out.contains("partial snapshot"));
}

#[test]
fn render_markdown_links_the_provider_to_its_source_url() {
    let snap = snapshot_with(vec![FetchResult {
        provider: "openalex".into(),
        identity: "doi:10.1/x".into(),
        category: Category::Citations,
        outcome: Outcome::Values {
            metrics: vec![metric("citations", MetricValue::Count(1421))],
            metadata: None,
        },
    }]);
    let out = render_markdown(&snap);
    assert!(out.contains("[openalex](https://api.openalex.org/works/doi:10.1/x)"));
}

#[test]
fn render_markdown_na_and_failed_rows_have_no_source_to_link() {
    let mut snap = snapshot_with(vec![FetchResult {
        provider: "openalex".into(),
        identity: "doi:10.2/y".into(),
        category: Category::Citations,
        outcome: Outcome::NotApplicable {
            note: "not found in OpenAlex".into(),
        },
    }]);
    snap.identities = vec!["doi:10.2/y".into()];
    let out = render_markdown(&snap);
    assert!(!out.contains("]("));
}

#[test]
fn render_markdown_shows_na_and_failed_rows_never_zero() {
    let mut snap = snapshot_with(vec![
        FetchResult {
            provider: "openalex".into(),
            identity: "doi:10.2/y".into(),
            category: Category::Citations,
            outcome: Outcome::NotApplicable {
                note: "not found in OpenAlex".into(),
            },
        },
        FetchResult {
            provider: "openalex".into(),
            identity: "doi:10.3/z".into(),
            category: Category::Citations,
            outcome: Outcome::Failed {
                error: "rate limited (429)".into(),
            },
        },
    ]);
    snap.identities = vec!["doi:10.2/y".into(), "doi:10.3/z".into()];
    let out = render_markdown(&snap);
    assert!(out.contains("N/A"));
    assert!(out.contains("FAILED"));
    assert!(!out.contains("| 0 |"));
    assert!(out.contains("partial snapshot"));
}

#[test]
fn render_markdown_includes_rollup_and_deduplicated_notices() {
    let notice = "x".repeat(120);
    let mut snap = snapshot_with(vec![
        downloads_result("crates.io", "crates:boast", 100, Window::Cumulative),
        downloads_result("bioconda", "conda:bioconda/boast", 50, Window::Cumulative),
        FetchResult {
            provider: "dimensions".into(),
            identity: "doi:10.1/x".into(),
            category: Category::Citations,
            outcome: Outcome::Values {
                metrics: vec![Metric {
                    note: Some(notice.clone()),
                    provider: "dimensions".into(),
                    ..metric("citations", MetricValue::Count(5))
                }],
                metadata: None,
            },
        },
    ]);
    snap.identities = vec![
        "crates:boast".into(),
        "conda:bioconda/boast".into(),
        "doi:10.1/x".into(),
    ];
    let out = render_markdown(&snap);
    assert!(out.contains("## Downloads Rollup"));
    assert!(out.contains("150"));
    assert!(out.contains("## Notices"));
    assert_eq!(out.matches(notice.as_str()).count(), 1);
}

#[test]
fn render_markdown_escapes_pipe_and_newline_in_a_table_cell() {
    let snap = snapshot_with(vec![FetchResult {
        provider: "example".into(),
        identity: "doi:10.1/x".into(),
        category: Category::Citations,
        outcome: Outcome::Values {
            metrics: vec![Metric {
                note: Some("a | pipe\nand a newline".into()),
                provider: "example".into(),
                ..metric("citations", MetricValue::Count(1))
            }],
            metadata: None,
        },
    }]);
    let out = render_markdown(&snap);
    assert!(out.contains("a \\| pipe and a newline"));
    // The stray pipe must not have split the table into an extra column.
    assert!(!out.contains("| pipe\nand"));
}

// -- render_prose -------------------------------------------------------

#[test]
fn render_prose_picks_the_highest_citation_count_and_attributes_it() {
    let snap = snapshot_with(vec![
        FetchResult {
            provider: "openalex".into(),
            identity: "doi:10.1/x".into(),
            category: Category::Citations,
            outcome: Outcome::Values {
                metrics: vec![metric("citations", MetricValue::Count(1421))],
                metadata: None,
            },
        },
        FetchResult {
            provider: "crossref".into(),
            identity: "doi:10.1/x".into(),
            category: Category::Citations,
            outcome: Outcome::Values {
                metrics: vec![Metric {
                    provider: "crossref".into(),
                    ..metric("citations", MetricValue::Count(900))
                }],
                metadata: None,
            },
        },
    ]);
    let out = render_prose(&snap);
    assert!(out.contains("1421"));
    assert!(out.contains("openalex"));
    assert!(!out.contains("900"));
}

#[test]
fn render_prose_includes_stars_and_a_downloads_rollup() {
    let mut snap = snapshot_with(vec![
        FetchResult {
            provider: "github".into(),
            identity: "github:o/n".into(),
            category: Category::Code,
            outcome: Outcome::Values {
                metrics: vec![Metric {
                    category: Category::Code,
                    provider: "github".into(),
                    identity: "github:o/n".into(),
                    ..metric("stars", MetricValue::Count(342))
                }],
                metadata: None,
            },
        },
        downloads_result("crates.io", "crates:boast", 100, Window::Cumulative),
        downloads_result("bioconda", "conda:bioconda/boast", 50, Window::Cumulative),
    ]);
    snap.identities = vec![
        "github:o/n".into(),
        "crates:boast".into(),
        "conda:bioconda/boast".into(),
    ];
    let out = render_prose(&snap);
    assert!(out.contains("342"));
    assert!(out.contains("150"));
    assert!(out.contains("2 channels"));
    assert!(out.ends_with('.'));
}

#[test]
fn render_prose_falls_back_to_a_single_channel_when_theres_no_rollup() {
    let snap = snapshot_with(vec![downloads_result(
        "crates.io",
        "crates:boast",
        100,
        Window::Cumulative,
    )]);
    let out = render_prose(&snap);
    assert!(out.contains("100"));
    assert!(out.contains("crates.io"));
}

#[test]
fn render_prose_says_no_headline_metrics_for_an_empty_snapshot() {
    let out = render_prose(&snapshot_with(vec![]));
    assert!(out.contains("no headline metrics"));
    assert!(!out.contains(" 0 "));
}

#[test]
fn render_prose_flags_a_partial_snapshot_without_faking_a_number() {
    let snap = snapshot_with(vec![
        FetchResult {
            provider: "openalex".into(),
            identity: "doi:10.1/x".into(),
            category: Category::Citations,
            outcome: Outcome::Values {
                metrics: vec![metric("citations", MetricValue::Count(1421))],
                metadata: None,
            },
        },
        FetchResult {
            provider: "github".into(),
            identity: "github:o/n".into(),
            category: Category::Code,
            outcome: Outcome::Failed {
                error: "rate limited (429)".into(),
            },
        },
    ]);
    let out = render_prose(&snap);
    assert!(out.contains("1421"));
    assert!(out.to_lowercase().contains("some metrics failed"));
}

#[test]
fn render_prose_carries_a_providers_notice_when_the_headline_metric_needs_one() {
    // A terms-gated number is never quoted without its terms, even in the
    // one-sentence prose format.
    let notice = "This data is subject to terms; see https://example.com/terms.".repeat(2);
    let snap = snapshot_with(vec![FetchResult {
        provider: "dimensions".into(),
        identity: "doi:10.1/x".into(),
        category: Category::Citations,
        outcome: Outcome::Values {
            metrics: vec![Metric {
                note: Some(notice.clone()),
                provider: "dimensions".into(),
                ..metric("citations", MetricValue::Count(1421))
            }],
            metadata: None,
        },
    }]);
    let out = render_prose(&snap);
    assert!(out.contains("1421"));
    assert!(out.contains(&notice));
}

#[test]
fn render_prose_omits_a_short_interpretive_note_never_treats_it_as_a_notice() {
    // A short gloss (under the notice threshold) is not a Provider
    // licence/terms notice and must not be tacked onto the sentence.
    let snap = snapshot_with(vec![FetchResult {
        provider: "openalex".into(),
        identity: "doi:10.1/x".into(),
        category: Category::Citations,
        outcome: Outcome::Values {
            metrics: vec![Metric {
                note: Some("short gloss".into()),
                ..metric("citations", MetricValue::Count(1421))
            }],
            metadata: None,
        },
    }]);
    let out = render_prose(&snap);
    assert!(!out.contains("short gloss"));
}


#[test]
fn reports_keep_the_offset_the_snapshot_was_taken_in() {
    // 2026-08-04T23:30:00Z, recorded at +02:00: locally already 5 August.
    let mut snap = snapshot_with(vec![]);
    snap.created_at = Timestamp { unix_nanos: 1_785_886_200 * 1_000_000_000, offset_secs: 7200 };
    let terminal = render_terminal(&snap);
    assert!(terminal.contains("as of 2026-08-05T01:30:00+02:00"), "{terminal}");
    let markdown = render_markdown(&snap);
    assert!(markdown.contains("as of 2026-08-05T01:30:00+02:00"), "{markdown}");
    let prose = render_prose(&snap);
    assert!(prose.starts_with("As of 2026-08-05, "), "{prose}");
}

#[test]
fn a_rollup_needs_only_each_window_to_fit() {
    // Two Windows whose counts each fit in u64 but together would not.
    let big = u64::MAX / 2;
    let dl = |provider: &str, window: Window, n: u64| Metric {
        category: Category::Downloads,
        provider: provider.into(),
        window,
        ..metric("downloads", MetricValue::Count(n))
    };
    let snap = snapshot_with(vec![FetchResult {
        provider: "pypi".into(),
        identity: "doi:10.1/x".into(),
        category: Category::Downloads,
        outcome: Outcome::Values {
            metrics: vec![
                dl("pypi", Window::Cumulative, big),
                dl("bioconda", Window::Cumulative, big),
                dl("homebrew", Window::Trailing { days: 365 }, big),
                dl("docker", Window::Trailing { days: 365 }, big),
            ],
            metadata: None,
        },
    }]);
    assert!(boast::report::downloads_sum_fits(&snap));
    let prose = render_prose(&snap);
    assert!(prose.contains(&format!("has been downloaded {} times", big * 2)), "{prose}");
}

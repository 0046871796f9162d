# boast

A reproducible research-impact aggregator. A **Project** (a code repository,
distribution packages and/or a paper) is measured by **Providers** into
**Metrics** across four **Categories** (Code, Downloads, Citations,
Attention), recorded in a timestamped **Snapshot** and rendered as
**Reports** (terminal, Markdown, prose).

The library under `src/` is written in Verus: every public function carries a
`requires`/`ensures` contract over mathematical views (`Seq`, `Map`, `int`),
and properties that span several calls (rollups never mixing Windows, a
diff accounting for every Metric, per-host queues, retry bounds, canonical
text reading back) are stated and proved as `law_*` proof functions.

## Layout

- `src/identity.rs`: parsing and canonical text of repository, package and
  paper identities.
- `src/model.rs`: metrics, windows, outcomes and snapshots.
- `src/rollup.rs`: download rollups, which never mix time windows.
- `src/diff.rs`: comparison of two snapshots.
- `src/report.rs`: terminal, Markdown and prose reports, notices and
  provider notes.
- `src/transport.rs`: the HTTP transport trait (with the replies a transport
  may give), retrying with bounded exponential backoff (the delays handed to
  the sleeper are recorded and stated), and an offline scripted transport.
- `src/provider.rs`, `src/providers/`: the request each provider makes and
  the decision it takes on each reply.
- `src/orchestrator.rs`: the job plan, per-host queues and snapshot assembly.
- `src/orcid.rs`, `src/manifest.rs`, `src/cli.rs`: ORCID expansion,
  manifests and command-line normalisation.
- `src/clock.rs`, `src/text.rs`: dates via the `time` crate and verified
  string helpers.
- `app/`: the command-line program: argument parsing, HTTP, JSON and TOML,
  files and threads.
- `tests/`: tests of the library through its public interface.

//! `boast` — a reproducible research-impact aggregator, as a verified library.

pub mod cli;
pub mod clock;
pub mod diff;
pub mod identity;
pub mod manifest;
pub mod model;
pub mod orchestrator;
pub mod orcid;
pub mod provider;
pub mod report;
pub mod providers;
pub mod rollup;
pub mod text;
pub mod transport;

//! The Provider trait: a source-specific component that, given an Identity,
//! fetches Metrics from one external service through the
//! [`Transport`](crate::transport::Transport) seam. The default set is
//! assembled in [`crate::providers`].

use vstd::prelude::*;

use crate::identity::Identity;
use crate::model::{Category, Outcome, OutcomeView};
use crate::text::{concat3, dec, owned, push_str, push_u64};
use crate::transport::{is_transient_status, transient_status};

verus! {

/// Whether a Provider needs an API key, and in which environment variable.
#[derive(Debug, Clone, Copy, PartialEq, Eq)]
pub enum KeyRequirement {
    Keyless,
    Optional { env_var: &'static str },
    Required { env_var: &'static str },
}

pub trait Provider {
    /// Stable short name recorded in Snapshots (e.g. "openalex").
    fn name(&self) -> &'static str;

    /// The Category this Provider's Metrics belong to.
    fn category(&self) -> Category;

    /// Whether this Provider understands the given Identity kind.
    fn supports(&self, identity: &Identity) -> bool;

    /// Whether, and through which variable, the Provider takes an API key.
    fn key_requirement(&self) -> (r: KeyRequirement)
        default_ensures
            r == KeyRequirement::Keyless,
    {
        KeyRequirement::Keyless
    }
}

/// The Outcome an HTTP status other than 200 stands for; `None` for 200,
/// whose body the Provider reads itself. A 404 carries the Provider's own
/// wording; 429, 5xx and any other status use shared templates.
pub open spec fn status_outcome(status: u16, provider_name: Seq<char>, not_found: Seq<char>) -> Option<OutcomeView> {
    if status == 200 {
        None
    } else if status == 404 {
        Some(OutcomeView::NotApplicable(not_found))
    } else if status == 429 {
        Some(OutcomeView::Failed("rate limited by "@ + provider_name + " (429)"@))
    } else if transient_status(status) {
        Some(OutcomeView::Failed(provider_name + " server error ("@ + dec(status as nat) + ")"@))
    } else {
        Some(OutcomeView::Failed("unexpected "@ + provider_name + " status ("@ + dec(status as nat) + ")"@))
    }
}

pub open spec fn opt_outcome_view(o: Option<Outcome>) -> Option<OutcomeView> {
    match o {
        Some(x) => Some(x@),
        None => None,
    }
}

/// Classifies a fetched HTTP status other than 200 into an Outcome.
/// `NotApplicable` and `Failed` are never coerced to a value.
pub fn classify_status(status: u16, provider_name: &str, not_found: &str) -> (r: Option<Outcome>)
    ensures
        opt_outcome_view(r) == status_outcome(status, provider_name@, not_found@),
{
    if status == 200 {
        None
    } else if status == 404 {
        Some(Outcome::NotApplicable { note: owned(not_found) })
    } else if status == 429 {
        Some(Outcome::Failed { error: concat3("rate limited by ", provider_name, " (429)") })
    } else if is_transient_status(status) {
        let mut e = owned(provider_name);
        push_str(&mut e, " server error (");
        push_u64(&mut e, status as u64);
        push_str(&mut e, ")");
        Some(Outcome::Failed { error: e })
    } else {
        let mut e = concat3("unexpected ", provider_name, " status (");
        push_u64(&mut e, status as u64);
        push_str(&mut e, ")");
        Some(Outcome::Failed { error: e })
    }
}

} // verus!

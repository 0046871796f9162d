//! Quay.io Provider: a container repository's pulls over Quay's rolling daily
//! series. Quay publishes no all-time total, so the window is the number of
//! days the series covers.

use vstd::prelude::*;

use crate::identity::{Identity, IdentityView, Registry};
use crate::model::{windowed, windowed_metric, Category, MetricValue, Outcome, OutcomeView, Timestamp, ValueView, Window, WindowView};
use crate::provider::Provider;
use crate::providers::{request_view, requested, settle, settled};
use crate::text::{chars_of, concat2, has_char, has_char_exec, owned, push_str};
use crate::transport::{fetched_view, HttpResponse, Transport, TransportError};

verus! {

pub struct Quay;

pub open spec fn supports_spec(id: IdentityView) -> bool {
    id matches IdentityView::Package(r, _) && r == Registry::Quay
}

pub open spec fn request_spec(id: IdentityView) -> Result<Seq<char>, OutcomeView> {
    match id {
        IdentityView::Package(r, name) if r == Registry::Quay => if !has_char(name, '/') {
            Err(OutcomeView::NotApplicable("quay package name must be 'namespace/name'"@))
        } else {
            Ok("https://quay.io/api/v1/repository/"@ + name + "?includeStats=true&includeTags=false"@)
        },
        _ => Err(OutcomeView::NotApplicable("Quay.io only supports quay packages"@)),
    }
}

/// The daily pull counts of a Quay.io repository reply (`stats[].count`),
/// absent when the reply carries no series.
pub struct QuayRepository {
    pub stats: Option<Vec<u64>>,
}

pub open spec fn sum_capped(xs: Seq<u64>) -> nat
    decreases xs.len(),
{
    if xs.len() == 0 {
        0
    } else {
        let s: nat = sum_capped(xs.drop_last()) + xs.last() as nat;
        if s > u64::MAX as nat { u64::MAX as nat } else { s }
    }
}

/// Quay answers 401 alike for a missing and for a private repository.
pub open spec fn no_public_repository() -> Seq<char> {
    "no public repository on Quay.io (Quay answers alike for a missing or a private repository, so this may be a private image)"@
}

pub open spec fn pull_note() -> Seq<char> {
    "Quay.io pull counts record image fetches by machines, not installs by people, and CI re-pulls dominate for a biocontainer; Quay publishes only a rolling daily series, so this is not an all-time total"@
}

pub open spec fn classify_spec(f: QuayRepository, url: Seq<char>, canonical: Seq<char>, as_of: Timestamp) -> OutcomeView {
    match f.stats {
        Some(days) if days@.len() > 0 => {
            let n = days@.len();
            let span: u32 = if n > u32::MAX { u32::MAX } else { n as u32 };
            OutcomeView::Values(
                seq![windowed("pulls"@, Category::Downloads, ValueView::Count(sum_capped(days@) as u64), WindowView::Trailing(span), "quay"@, canonical, as_of, url, Some(pull_note()))],
                None,
            )
        },
        _ => OutcomeView::NotApplicable("Quay.io returned no pull counts for this repository"@),
    }
}

/// The sum of the daily counts, capped at `u64::MAX`.
pub fn total_pulls(days: &Vec<u64>) -> (r: u64)
    ensures
        r == sum_capped(days@),
{
    let mut total: u64 = 0;
    let mut i: usize = 0;
    while i < days.len()
        invariant
            i <= days.len(),
            total == sum_capped(days@.take(i as int)),
        decreases days.len() - i,
    {
        assert(days@.take(i + 1).drop_last() =~= days@.take(i as int));
        total = if total > u64::MAX - days[i] { u64::MAX } else { total + days[i] };
        i = i + 1;
    }
    assert(days@.take(days.len() as int) =~= days@);
    total
}

/// Quay's first decision on a reply: a 401 is a missing or private
/// repository; any other reply is settled as for every Provider.
pub open spec fn quay_settled(f: Result<crate::transport::HttpResponseView, crate::transport::TransportErrorView>) -> Result<crate::transport::HttpResponseView, OutcomeView> {
    match f {
        Ok(resp) if resp.status == 401 => Err(OutcomeView::NotApplicable(no_public_repository())),
        _ => settled(f, "Quay.io"@, "not found on Quay.io"@),
    }
}

impl Quay {
    /// The URL to fetch for `identity`, or the Outcome when Quay.io cannot
    /// answer for it.
    pub fn request_url(identity: &Identity) -> (r: Result<String, Outcome>)
        ensures
            match (r, request_spec(identity@)) {
                (Ok(u), Ok(v)) => u@ == v,
                (Err(o), Err(v)) => o@ == v,
                _ => false,
            },
    {
        match identity {
            Identity::Package(p) => {
                if p.registry == Registry::Quay {
                    if !has_char_exec(&chars_of(p.name.as_str()), '/') {
                        return Err(Outcome::NotApplicable { note: owned("quay package name must be 'namespace/name'") });
                    }
                    let mut u = owned("https://quay.io/api/v1/repository/");
                    push_str(&mut u, p.name.as_str());
                    push_str(&mut u, "?includeStats=true&includeTags=false");
                    Ok(u)
                } else {
                    Err(Outcome::NotApplicable { note: owned("Quay.io only supports quay packages") })
                }
            },
            _ => Err(Outcome::NotApplicable { note: owned("Quay.io only supports quay packages") }),
        }
    }

    /// The first decision on Quay.io's reply. Quay answers 401 alike for a
    /// missing and for a private repository, so 401 is `NotApplicable`.
    pub fn settle_reply(fetched: Result<HttpResponse, TransportError>) -> (r: Result<HttpResponse, Outcome>)
        ensures
            match fetched_view(fetched) {
                Ok(resp) if resp.status == 401 => r is Err && r->Err_0@ == OutcomeView::NotApplicable(no_public_repository()),
                _ => match (r, settled(fetched_view(fetched), "Quay.io"@, "not found on Quay.io"@)) {
                    (Ok(resp), Ok(v)) => resp@ == v,
                    (Err(o), Err(v)) => o@ == v,
                    _ => false,
                },
            },
    {
        if let Ok(resp) = &fetched {
            if resp.status == 401 {
                return Err(Outcome::NotApplicable {
                    note: owned("no public repository on Quay.io (Quay answers alike for a missing or a private repository, so this may be a private image)"),
                });
            }
        }
        settle(fetched, "Quay.io", "not found on Quay.io")
    }

    /// Requests `identity`'s repository through `transport`: its URL and the
    /// 200 reply to read, or the Outcome already decided. No request is made
    /// for an Identity Quay.io cannot answer.
    pub fn request<T: Transport>(identity: &Identity, transport: &mut T) -> (r: Result<(String, HttpResponse), Outcome>)
        ensures
            match request_spec(identity@) {
                Err(v) => r is Err && r->Err_0@ == v && *final(transport) == *old(transport),
                Ok(u) => exists|f: Result<crate::transport::HttpResponseView, crate::transport::TransportErrorView>|
                    #![trigger old(transport).replies(final(transport), u, Seq::empty(), f)]
                    old(transport).replies(final(transport), u, Seq::empty(), f)
                        && requested(quay_settled(f), u) == request_view(r),
            },
    {
        let url = match Quay::request_url(identity) {
            Ok(u) => u,
            Err(o) => return Err(o),
        };
        let ghost u = url@;
        let fetched = transport.get(url.as_str());
        let ghost fv = fetched_view(fetched);
        let r = match Quay::settle_reply(fetched) {
            Ok(resp) => Ok((url, resp)),
            Err(o) => Err(o),
        };
        proof {
            assert(requested(quay_settled(fv), u) == request_view(r));
        }
        r
    }

    /// The Outcome for a 200 body that could not be read.
    pub fn malformed(reason: &str) -> (o: Outcome)
        ensures
            o@ == OutcomeView::Failed("unexpected Quay.io response: "@ + reason@),
    {
        Outcome::Failed { error: concat2("unexpected Quay.io response: ", reason) }
    }

    /// The Outcome for a readable reply: the summed pulls over the days the
    /// series covers, or `NotApplicable` for an absent or empty series.
    pub fn classify(f: &QuayRepository, url: &str, canonical: &str, as_of: Timestamp) -> (o: Outcome)
        ensures
            o@ == classify_spec(*f, url@, canonical@, as_of),
    {
        match &f.stats {
            Some(days) if days.len() > 0 => {
                let n = days.len();
                let span: u32 = if n > u32::MAX as usize { u32::MAX } else { n as u32 };
                let m = windowed_metric(
                    "pulls",
                    Category::Downloads,
                    MetricValue::Count(total_pulls(days)),
                    Window::Trailing { days: span },
                    "quay",
                    canonical,
                    as_of,
                    url,
                    Some("Quay.io pull counts record image fetches by machines, not installs by people, and CI re-pulls dominate for a biocontainer; Quay publishes only a rolling daily series, so this is not an all-time total"),
                );
                crate::model::one_metric(m)
            },
            _ => Outcome::NotApplicable { note: owned("Quay.io returned no pull counts for this repository") },
        }
    }
}

impl Provider for Quay {
    fn name(&self) -> (r: &'static str)
        ensures
            r@ == "quay"@,
    {
        "quay"
    }

    fn category(&self) -> (r: Category)
        ensures
            r == Category::Downloads,
    {
        Category::Downloads
    }

    fn supports(&self, identity: &Identity) -> (r: bool)
        ensures
            r == supports_spec(identity@),
    {
        match identity {
            Identity::Package(p) => p.registry == Registry::Quay,
            _ => false,
        }
    }
}

} // verus!

//! crates.io Provider: a crate's all-time download count.
use vstd::prelude::*;

use crate::identity::{Identity, IdentityView, Registry};
use crate::model::{cumulative, cumulative_metric, Category, MetricValue, Outcome, OutcomeView, Timestamp, ValueView};
use crate::provider::{status_outcome, Provider};
use crate::providers::{request_view, requested, settle, settled};
use crate::text::{concat2, owned};
use crate::transport::{fetched_view, HttpResponse, Transport, TransportError};

verus! {

pub struct CratesIo;

pub open spec fn supports_spec(id: IdentityView) -> bool {
    id matches IdentityView::Package(r, _) && r == Registry::Crates
}

pub open spec fn request_spec(id: IdentityView) -> Result<Seq<char>, OutcomeView> {
    match id {
        IdentityView::Package(r, name) if r == Registry::Crates => Ok("https://crates.io/api/v1/crates/"@ + name),
        _ => Err(OutcomeView::NotApplicable("crates.io only supports crates.io packages"@)),
    }
}

/// The fields of a crates.io reply that the count is read from.
pub struct CrateInfo {
    pub downloads: Option<u64>,
}

pub open spec fn classify_spec(f: CrateInfo, url: Seq<char>, canonical: Seq<char>, as_of: Timestamp) -> OutcomeView {
    match f.downloads {
        Some(n) => OutcomeView::Values(
            seq![cumulative("downloads"@, Category::Downloads, ValueView::Count(n), "crates.io"@, canonical, as_of, url, None)],
            None,
        ),
        None => OutcomeView::NotApplicable("crates.io returned no download count"@),
    }
}

impl CratesIo {
    /// The URL to fetch for `identity`, or the Outcome when crates.io cannot
    /// answer for it.
    pub fn request_url(identity: &Identity) -> (r: Result<String, Outcome>)
        ensures
            match (r, request_spec(identity@)) {
                (Ok(u), Ok(v)) => u@ == v,
                (Err(o), Err(v)) => o@ == v,
                _ => false,
            },
    {
        match identity {
            Identity::Package(p) => {
                if p.registry == Registry::Crates {
                    let mut u = owned("https://crates.io/api/v1/crates/");
                    crate::text::push_str(&mut u, p.name.as_str());
                    Ok(u)
                } else {
                    Err(Outcome::NotApplicable { note: owned("crates.io only supports crates.io packages") })
                }
            },
            _ => Err(Outcome::NotApplicable { note: owned("crates.io only supports crates.io packages") }),
        }
    }

    /// The first decision on crates.io's reply.
    pub fn settle_reply(fetched: Result<HttpResponse, TransportError>) -> (r: Result<HttpResponse, Outcome>)
        ensures
            match (r, settled(fetched_view(fetched), "crates.io"@, "not found on crates.io"@)) {
                (Ok(resp), Ok(v)) => resp@ == v,
                (Err(o), Err(v)) => o@ == v,
                _ => false,
            },
    {
        settle(fetched, "crates.io", "not found on crates.io")
    }

    /// Requests `identity`'s record through `transport`: its URL and the 200
    /// reply to read, or the Outcome already decided. No request is made for
    /// an Identity crates.io cannot answer.
    pub fn request<T: Transport>(identity: &Identity, transport: &mut T) -> (r: Result<(String, HttpResponse), Outcome>)
        ensures
            match request_spec(identity@) {
                Err(v) => r is Err && r->Err_0@ == v && *final(transport) == *old(transport),
                Ok(u) => exists|f: Result<crate::transport::HttpResponseView, crate::transport::TransportErrorView>|
                    #![trigger old(transport).replies(final(transport), u, Seq::empty(), f)]
                    old(transport).replies(final(transport), u, Seq::empty(), f)
                        && requested(settled(f, "crates.io"@, "not found on crates.io"@), u) == request_view(r),
            },
    {
        let url = match CratesIo::request_url(identity) {
            Ok(u) => u,
            Err(o) => return Err(o),
        };
        let ghost u = url@;
        let fetched = transport.get(url.as_str());
        let ghost fv = fetched_view(fetched);
        let r = match CratesIo::settle_reply(fetched) {
            Ok(resp) => Ok((url, resp)),
            Err(o) => Err(o),
        };
        proof {
            assert(requested(settled(fv, "crates.io"@, "not found on crates.io"@), u) == request_view(r));
        }
        r
    }

    /// The Outcome for a 200 body that could not be read.
    pub fn malformed(reason: &str) -> (o: Outcome)
        ensures
            o@ == OutcomeView::Failed("unexpected crates.io response: "@ + reason@),
    {
        Outcome::Failed { error: concat2("unexpected crates.io response: ", reason) }
    }

    /// The Outcome for a readable reply: one downloads Metric, or
    /// `NotApplicable` when the count is absent (never a zero).
    pub fn classify(f: &CrateInfo, url: &str, canonical: &str, as_of: Timestamp) -> (o: Outcome)
        ensures
            o@ == classify_spec(*f, url@, canonical@, as_of),
    {
        match f.downloads {
            Some(n) => {
                let m = cumulative_metric("downloads", Category::Downloads, MetricValue::Count(n), "crates.io", canonical, as_of, url, None);
                crate::model::one_metric(m)
            },
            None => Outcome::NotApplicable { note: owned("crates.io returned no download count") },
        }
    }
}

impl Provider for CratesIo {
    fn name(&self) -> (r: &'static str)
        ensures
            r@ == "crates.io"@,
    {
        "crates.io"
    }

    fn category(&self) -> (r: Category)
        ensures
            r == Category::Downloads,
    {
        Category::Downloads
    }

    fn supports(&self, identity: &Identity) -> (r: bool)
        ensures
            r == supports_spec(identity@),
    {
        match identity {
            Identity::Package(p) => p.registry == Registry::Crates,
            _ => false,
        }
    }
}

} // verus!

//! Bioconda Provider: a bioconda package's all-time download count, from the
//! anaconda.org API.
use vstd::prelude::*;

use crate::identity::{Identity, IdentityView, Registry};
use crate::model::{cumulative, cumulative_metric, Category, MetricValue, Outcome, OutcomeView, Timestamp, ValueView};
use crate::provider::{status_outcome, Provider};
use crate::providers::{request_view, requested, settle, settled};
use crate::text::{concat2, owned};
use crate::transport::{fetched_view, HttpResponse, Transport, TransportError};

verus! {

pub struct Bioconda;

pub open spec fn supports_spec(id: IdentityView) -> bool {
    id matches IdentityView::Package(r, _) && r == Registry::Bioconda
}

pub open spec fn request_spec(id: IdentityView) -> Result<Seq<char>, OutcomeView> {
    match id {
        IdentityView::Package(r, name) if r == Registry::Bioconda => Ok("https://api.anaconda.org/package/bioconda/"@ + name),
        _ => Err(OutcomeView::NotApplicable("Bioconda only supports bioconda packages"@)),
    }
}

/// The fields of a Bioconda reply that the count is read from.
pub struct AnacondaPackage {
    pub ndownloads: Option<u64>,
}

pub open spec fn classify_spec(f: AnacondaPackage, url: Seq<char>, canonical: Seq<char>, as_of: Timestamp) -> OutcomeView {
    match f.ndownloads {
        Some(n) => OutcomeView::Values(
            seq![cumulative("downloads"@, Category::Downloads, ValueView::Count(n), "bioconda"@, canonical, as_of, url, None)],
            None,
        ),
        None => OutcomeView::NotApplicable("Bioconda returned no download count"@),
    }
}

impl Bioconda {
    /// The URL to fetch for `identity`, or the Outcome when Bioconda cannot
    /// answer for it.
    pub fn request_url(identity: &Identity) -> (r: Result<String, Outcome>)
        ensures
            match (r, request_spec(identity@)) {
                (Ok(u), Ok(v)) => u@ == v,
                (Err(o), Err(v)) => o@ == v,
                _ => false,
            },
    {
        match identity {
            Identity::Package(p) => {
                if p.registry == Registry::Bioconda {
                    let mut u = owned("https://api.anaconda.org/package/bioconda/");
                    crate::text::push_str(&mut u, p.name.as_str());
                    Ok(u)
                } else {
                    Err(Outcome::NotApplicable { note: owned("Bioconda only supports bioconda packages") })
                }
            },
            _ => Err(Outcome::NotApplicable { note: owned("Bioconda only supports bioconda packages") }),
        }
    }

    /// The first decision on Bioconda's reply.
    pub fn settle_reply(fetched: Result<HttpResponse, TransportError>) -> (r: Result<HttpResponse, Outcome>)
        ensures
            match (r, settled(fetched_view(fetched), "Bioconda"@, "not found on Bioconda"@)) {
                (Ok(resp), Ok(v)) => resp@ == v,
                (Err(o), Err(v)) => o@ == v,
                _ => false,
            },
    {
        settle(fetched, "Bioconda", "not found on Bioconda")
    }

    /// Requests `identity`'s record through `transport`: its URL and the 200
    /// reply to read, or the Outcome already decided. No request is made for
    /// an Identity Bioconda cannot answer.
    pub fn request<T: Transport>(identity: &Identity, transport: &mut T) -> (r: Result<(String, HttpResponse), Outcome>)
        ensures
            match request_spec(identity@) {
                Err(v) => r is Err && r->Err_0@ == v && *final(transport) == *old(transport),
                Ok(u) => exists|f: Result<crate::transport::HttpResponseView, crate::transport::TransportErrorView>|
                    #![trigger old(transport).replies(final(transport), u, Seq::empty(), f)]
                    old(transport).replies(final(transport), u, Seq::empty(), f)
                        && requested(settled(f, "Bioconda"@, "not found on Bioconda"@), u) == request_view(r),
            },
    {
        let url = match Bioconda::request_url(identity) {
            Ok(u) => u,
            Err(o) => return Err(o),
        };
        let ghost u = url@;
        let fetched = transport.get(url.as_str());
        let ghost fv = fetched_view(fetched);
        let r = match Bioconda::settle_reply(fetched) {
            Ok(resp) => Ok((url, resp)),
            Err(o) => Err(o),
        };
        proof {
            assert(requested(settled(fv, "Bioconda"@, "not found on Bioconda"@), u) == request_view(r));
        }
        r
    }

    /// The Outcome for a 200 body that could not be read.
    pub fn malformed(reason: &str) -> (o: Outcome)
        ensures
            o@ == OutcomeView::Failed("unexpected Bioconda response: "@ + reason@),
    {
        Outcome::Failed { error: concat2("unexpected Bioconda response: ", reason) }
    }

    /// The Outcome for a readable reply: one downloads Metric, or
    /// `NotApplicable` when the count is absent (never a zero).
    pub fn classify(f: &AnacondaPackage, url: &str, canonical: &str, as_of: Timestamp) -> (o: Outcome)
        ensures
            o@ == classify_spec(*f, url@, canonical@, as_of),
    {
        match f.ndownloads {
            Some(n) => {
                let m = cumulative_metric("downloads", Category::Downloads, MetricValue::Count(n), "bioconda", canonical, as_of, url, None);
                crate::model::one_metric(m)
            },
            None => Outcome::NotApplicable { note: owned("Bioconda returned no download count") },
        }
    }
}

impl Provider for Bioconda {
    fn name(&self) -> (r: &'static str)
        ensures
            r@ == "bioconda"@,
    {
        "bioconda"
    }

    fn category(&self) -> (r: Category)
        ensures
            r == Category::Downloads,
    {
        Category::Downloads
    }

    fn supports(&self, identity: &Identity) -> (r: bool)
        ensures
            r == supports_spec(identity@),
    {
        match identity {
            Identity::Package(p) => p.registry == Registry::Bioconda,
            _ => false,
        }
    }
}

} // verus!

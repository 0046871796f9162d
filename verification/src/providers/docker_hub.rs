//! Docker Hub Provider: a container image's all-time pull count, which counts
//! machine fetches rather than installs by people.
use vstd::prelude::*;

use crate::identity::{Identity, IdentityView, Registry};
use crate::model::{cumulative, cumulative_metric, Category, MetricValue, Outcome, OutcomeView, Timestamp, ValueView};
use crate::provider::{status_outcome, Provider};
use crate::providers::{request_view, requested, settle, settled};
use crate::text::{concat2, owned};
use crate::transport::{fetched_view, HttpResponse, Transport, TransportError};

verus! {

pub struct DockerHub;

pub open spec fn supports_spec(id: IdentityView) -> bool {
    id matches IdentityView::Package(r, _) && r == Registry::Docker
}

pub open spec fn request_spec(id: IdentityView) -> Result<Seq<char>, OutcomeView> {
    match id {
        IdentityView::Package(r, name) if r == Registry::Docker => if !crate::text::has_char(name, '/') { Err(OutcomeView::NotApplicable("docker package name must be 'namespace/name'"@)) } else { Ok("https://hub.docker.com/v2/repositories/"@ + name + "/"@) },
        _ => Err(OutcomeView::NotApplicable("Docker Hub only supports docker packages"@)),
    }
}

/// The fields of a Docker Hub reply that the count is read from.
pub struct DockerRepository {
    pub pull_count: Option<u64>,
}

pub open spec fn classify_spec(f: DockerRepository, url: Seq<char>, canonical: Seq<char>, as_of: Timestamp) -> OutcomeView {
    match f.pull_count {
        Some(n) => OutcomeView::Values(
            seq![cumulative("downloads"@, Category::Downloads, ValueView::Count(n), "dockerhub"@, canonical, as_of, url, Some("Docker Hub pull counts record image fetches by machines, not installs by people: CI re-pulls and mirror warming inflate the figure, and it never resets"@))],
            None,
        ),
        None => OutcomeView::NotApplicable("Docker Hub returned no pull count"@),
    }
}

impl DockerHub {
    /// The URL to fetch for `identity`, or the Outcome when Docker Hub cannot
    /// answer for it.
    pub fn request_url(identity: &Identity) -> (r: Result<String, Outcome>)
        ensures
            match (r, request_spec(identity@)) {
                (Ok(u), Ok(v)) => u@ == v,
                (Err(o), Err(v)) => o@ == v,
                _ => false,
            },
    {
        match identity {
            Identity::Package(p) => {
                if p.registry == Registry::Docker {
                    if !crate::text::has_char_exec(&crate::text::chars_of(p.name.as_str()), '/') {
                        return Err(Outcome::NotApplicable { note: owned("docker package name must be 'namespace/name'") });
                    }
                    let mut u = owned("https://hub.docker.com/v2/repositories/");
                    crate::text::push_str(&mut u, p.name.as_str());
                    crate::text::push_str(&mut u, "/");
                    Ok(u)
                } else {
                    Err(Outcome::NotApplicable { note: owned("Docker Hub only supports docker packages") })
                }
            },
            _ => Err(Outcome::NotApplicable { note: owned("Docker Hub only supports docker packages") }),
        }
    }

    /// The first decision on Docker Hub's reply.
    pub fn settle_reply(fetched: Result<HttpResponse, TransportError>) -> (r: Result<HttpResponse, Outcome>)
        ensures
            match (r, settled(fetched_view(fetched), "Docker Hub"@, "not found on Docker Hub"@)) {
                (Ok(resp), Ok(v)) => resp@ == v,
                (Err(o), Err(v)) => o@ == v,
                _ => false,
            },
    {
        settle(fetched, "Docker Hub", "not found on Docker Hub")
    }

    /// Requests `identity`'s record through `transport`: its URL and the 200
    /// reply to read, or the Outcome already decided. No request is made for
    /// an Identity Docker Hub cannot answer.
    pub fn request<T: Transport>(identity: &Identity, transport: &mut T) -> (r: Result<(String, HttpResponse), Outcome>)
        ensures
            match request_spec(identity@) {
                Err(v) => r is Err && r->Err_0@ == v && *final(transport) == *old(transport),
                Ok(u) => exists|f: Result<crate::transport::HttpResponseView, crate::transport::TransportErrorView>|
                    #![trigger old(transport).replies(final(transport), u, Seq::empty(), f)]
                    old(transport).replies(final(transport), u, Seq::empty(), f)
                        && requested(settled(f, "Docker Hub"@, "not found on Docker Hub"@), u) == request_view(r),
            },
    {
        let url = match DockerHub::request_url(identity) {
            Ok(u) => u,
            Err(o) => return Err(o),
        };
        let ghost u = url@;
        let fetched = transport.get(url.as_str());
        let ghost fv = fetched_view(fetched);
        let r = match DockerHub::settle_reply(fetched) {
            Ok(resp) => Ok((url, resp)),
            Err(o) => Err(o),
        };
        proof {
            assert(requested(settled(fv, "Docker Hub"@, "not found on Docker Hub"@), u) == request_view(r));
        }
        r
    }

    /// The Outcome for a 200 body that could not be read.
    pub fn malformed(reason: &str) -> (o: Outcome)
        ensures
            o@ == OutcomeView::Failed("unexpected Docker Hub response: "@ + reason@),
    {
        Outcome::Failed { error: concat2("unexpected Docker Hub response: ", reason) }
    }

    /// The Outcome for a readable reply: one downloads Metric, or
    /// `NotApplicable` when the count is absent (never a zero).
    pub fn classify(f: &DockerRepository, url: &str, canonical: &str, as_of: Timestamp) -> (o: Outcome)
        ensures
            o@ == classify_spec(*f, url@, canonical@, as_of),
    {
        match f.pull_count {
            Some(n) => {
                let m = cumulative_metric("downloads", Category::Downloads, MetricValue::Count(n), "dockerhub", canonical, as_of, url, Some("Docker Hub pull counts record image fetches by machines, not installs by people: CI re-pulls and mirror warming inflate the figure, and it never resets"));
                crate::model::one_metric(m)
            },
            None => Outcome::NotApplicable { note: owned("Docker Hub returned no pull count") },
        }
    }
}

impl Provider for DockerHub {
    fn name(&self) -> (r: &'static str)
        ensures
            r@ == "dockerhub"@,
    {
        "dockerhub"
    }

    fn category(&self) -> (r: Category)
        ensures
            r == Category::Downloads,
    {
        Category::Downloads
    }

    fn supports(&self, identity: &Identity) -> (r: bool)
        ensures
            r == supports_spec(identity@),
    {
        match identity {
            Identity::Package(p) => p.registry == Registry::Docker,
            _ => false,
        }
    }
}

} // verus!

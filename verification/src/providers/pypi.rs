//! PyPI Provider: a package's downloads over pypistats' "last month" bucket,
//! treated as a trailing 30-day window.

use vstd::prelude::*;

use crate::identity::{Identity, IdentityView, Registry};
use crate::model::{windowed, windowed_metric, Category, MetricValue, Outcome, OutcomeView, Timestamp, ValueView, Window, WindowView};
use crate::provider::Provider;
use crate::providers::{request_view, requested, settle, settled};
use crate::text::{concat2, owned, push_str};
use crate::transport::{fetched_view, HttpResponse, Transport, TransportError};

verus! {

pub struct Pypi;

pub open spec fn supports_spec(id: IdentityView) -> bool {
    id matches IdentityView::Package(r, _) && r == Registry::Pypi
}

pub open spec fn request_spec(id: IdentityView) -> Result<Seq<char>, OutcomeView> {
    match id {
        IdentityView::Package(r, name) if r == Registry::Pypi => Ok("https://pypistats.org/api/packages/"@ + name + "/recent"@),
        _ => Err(OutcomeView::NotApplicable("PyPI only supports pypi packages"@)),
    }
}

/// The field of a pypistats `recent` reply that the count is read from
/// (`data.last_month`).
pub struct RecentDownloads {
    pub last_month: Option<u64>,
}

pub open spec fn pypi_note() -> Seq<char> {
    "pypistats' \"last month\" bucket; treated as trailing 30 days since pypistats doesn't publish an exact day boundary for it"@
}

pub open spec fn classify_spec(f: RecentDownloads, url: Seq<char>, canonical: Seq<char>, as_of: Timestamp) -> OutcomeView {
    match f.last_month {
        Some(n) => OutcomeView::Values(
            seq![windowed("downloads"@, Category::Downloads, ValueView::Count(n), WindowView::Trailing(30), "pypi"@, canonical, as_of, url, Some(pypi_note()))],
            None,
        ),
        None => OutcomeView::NotApplicable("PyPI returned no download count"@),
    }
}

impl Pypi {
    /// The URL to fetch for `identity`, or the Outcome when PyPI cannot
    /// answer for it.
    pub fn request_url(identity: &Identity) -> (r: Result<String, Outcome>)
        ensures
            match (r, request_spec(identity@)) {
                (Ok(u), Ok(v)) => u@ == v,
                (Err(o), Err(v)) => o@ == v,
                _ => false,
            },
    {
        match identity {
            Identity::Package(p) => {
                if p.registry == Registry::Pypi {
                    let mut u = owned("https://pypistats.org/api/packages/");
                    push_str(&mut u, p.name.as_str());
                    push_str(&mut u, "/recent");
                    Ok(u)
                } else {
                    Err(Outcome::NotApplicable { note: owned("PyPI only supports pypi packages") })
                }
            },
            _ => Err(Outcome::NotApplicable { note: owned("PyPI only supports pypi packages") }),
        }
    }

    /// The first decision on PyPI's reply.
    pub fn settle_reply(fetched: Result<HttpResponse, TransportError>) -> (r: Result<HttpResponse, Outcome>)
        ensures
            match (r, settled(fetched_view(fetched), "PyPI"@, "not found on PyPI"@)) {
                (Ok(resp), Ok(v)) => resp@ == v,
                (Err(o), Err(v)) => o@ == v,
                _ => false,
            },
    {
        settle(fetched, "PyPI", "not found on PyPI")
    }

    /// Requests `identity`'s record through `transport`: its URL and the 200
    /// reply to read, or the Outcome already decided. No request is made for
    /// an Identity PyPI cannot answer.
    pub fn request<T: Transport>(identity: &Identity, transport: &mut T) -> (r: Result<(String, HttpResponse), Outcome>)
        ensures
            match request_spec(identity@) {
                Err(v) => r is Err && r->Err_0@ == v && *final(transport) == *old(transport),
                Ok(u) => exists|f: Result<crate::transport::HttpResponseView, crate::transport::TransportErrorView>|
                    #![trigger old(transport).replies(final(transport), u, Seq::empty(), f)]
                    old(transport).replies(final(transport), u, Seq::empty(), f)
                        && requested(settled(f, "PyPI"@, "not found on PyPI"@), u) == request_view(r),
            },
    {
        let url = match Pypi::request_url(identity) {
            Ok(u) => u,
            Err(o) => return Err(o),
        };
        let ghost u = url@;
        let fetched = transport.get(url.as_str());
        let ghost fv = fetched_view(fetched);
        let r = match Pypi::settle_reply(fetched) {
            Ok(resp) => Ok((url, resp)),
            Err(o) => Err(o),
        };
        proof {
            assert(requested(settled(fv, "PyPI"@, "not found on PyPI"@), u) == request_view(r));
        }
        r
    }

    /// The Outcome for a 200 body that could not be read.
    pub fn malformed(reason: &str) -> (o: Outcome)
        ensures
            o@ == OutcomeView::Failed("unexpected PyPI response: "@ + reason@),
    {
        Outcome::Failed { error: concat2("unexpected PyPI response: ", reason) }
    }

    /// The Outcome for a readable reply: one trailing-30-day downloads
    /// Metric, or `NotApplicable` when the count is absent.
    pub fn classify(f: &RecentDownloads, url: &str, canonical: &str, as_of: Timestamp) -> (o: Outcome)
        ensures
            o@ == classify_spec(*f, url@, canonical@, as_of),
    {
        match f.last_month {
            Some(n) => {
                let m = windowed_metric(
                    "downloads",
                    Category::Downloads,
                    MetricValue::Count(n),
                    Window::Trailing { days: 30 },
                    "pypi",
                    canonical,
                    as_of,
                    url,
                    Some("pypistats' \"last month\" bucket; treated as trailing 30 days since pypistats doesn't publish an exact day boundary for it"),
                );
                crate::model::one_metric(m)
            },
            None => Outcome::NotApplicable { note: owned("PyPI returned no download count") },
        }
    }
}

impl Provider for Pypi {
    fn name(&self) -> (r: &'static str)
        ensures
            r@ == "pypi"@,
    {
        "pypi"
    }

    fn category(&self) -> (r: Category)
        ensures
            r == Category::Downloads,
    {
        Category::Downloads
    }

    fn supports(&self, identity: &Identity) -> (r: bool)
        ensures
            r == supports_spec(identity@),
    {
        match identity {
            Identity::Package(p) => p.registry == Registry::Pypi,
            _ => false,
        }
    }
}

} // verus!

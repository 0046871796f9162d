//! Wikipedia Provider: English Wikipedia full-text search hits for a paper's
//! DOI, as an Attention Metric.

use vstd::prelude::*;

use crate::identity::{Identity, IdentityView, PaperId};
use crate::model::{cumulative, cumulative_metric, Category, MetricValue, Outcome, OutcomeView, Timestamp, ValueView};
use crate::provider::Provider;
use crate::providers::{percent_encode, percent_encoded, request_view, requested, settle, settled};
use crate::text::{concat2, owned, push_str};
use crate::transport::{fetched_view, HttpResponse, Transport, TransportError};

verus! {

pub struct Wikipedia;

pub open spec fn supports_spec(id: IdentityView) -> bool {
    id is Doi
}

pub open spec fn request_spec(id: IdentityView) -> Result<Seq<char>, OutcomeView> {
    match id {
        IdentityView::Doi(d) => Ok(
            "https://en.wikipedia.org/w/api.php?action=query&list=search&format=json&srlimit=1&srsearch=%22"@
                + percent_encoded(d) + "%22"@,
        ),
        _ => Err(OutcomeView::NotApplicable("Wikipedia mention search requires a DOI"@)),
    }
}

/// The field of a search reply that the count is read from
/// (`query.searchinfo.totalhits`).
pub struct SearchInfo {
    pub totalhits: Option<u64>,
}

pub open spec fn mentions_note() -> Seq<char> {
    "English Wikipedia full-text search hits for this DOI; other-language Wikipedias are not counted"@
}

pub open spec fn classify_spec(f: SearchInfo, url: Seq<char>, canonical: Seq<char>, as_of: Timestamp) -> OutcomeView {
    match f.totalhits {
        Some(n) => OutcomeView::Values(
            seq![cumulative("wikipedia_mentions"@, Category::Attention, ValueView::Count(n), "wikipedia"@, canonical, as_of, url, Some(mentions_note()))],
            None,
        ),
        None => OutcomeView::Failed("unexpected Wikipedia response: missing searchinfo.totalhits"@),
    }
}

impl Wikipedia {
    /// The search URL for `identity`: the DOI, percent-encoded and quoted for
    /// an exact-phrase search; or the Outcome when there is no DOI.
    pub fn request_url(identity: &Identity) -> (r: Result<String, Outcome>)
        ensures
            match (r, request_spec(identity@)) {
                (Ok(u), Ok(v)) => u@ == v,
                (Err(o), Err(v)) => o@ == v,
                _ => false,
            },
    {
        match identity {
            Identity::Paper(PaperId::Doi(d)) => {
                let mut u = owned("https://en.wikipedia.org/w/api.php?action=query&list=search&format=json&srlimit=1&srsearch=%22");
                let enc = percent_encode(d.as_str());
                push_str(&mut u, enc.as_str());
                push_str(&mut u, "%22");
                Ok(u)
            },
            _ => Err(Outcome::NotApplicable { note: owned("Wikipedia mention search requires a DOI") }),
        }
    }

    /// The first decision on Wikipedia's reply.
    pub fn settle_reply(fetched: Result<HttpResponse, TransportError>) -> (r: Result<HttpResponse, Outcome>)
        ensures
            match (r, settled(fetched_view(fetched), "Wikipedia"@, "not found in Wikipedia search"@)) {
                (Ok(resp), Ok(v)) => resp@ == v,
                (Err(o), Err(v)) => o@ == v,
                _ => false,
            },
    {
        settle(fetched, "Wikipedia", "not found in Wikipedia search")
    }

    /// Requests `identity`'s record through `transport`: its URL and the 200
    /// reply to read, or the Outcome already decided. No request is made for
    /// an Identity Wikipedia search cannot answer.
    pub fn request<T: Transport>(identity: &Identity, transport: &mut T) -> (r: Result<(String, HttpResponse), Outcome>)
        ensures
            match request_spec(identity@) {
                Err(v) => r is Err && r->Err_0@ == v && *final(transport) == *old(transport),
                Ok(u) => exists|f: Result<crate::transport::HttpResponseView, crate::transport::TransportErrorView>|
                    #![trigger old(transport).replies(final(transport), u, Seq::empty(), f)]
                    old(transport).replies(final(transport), u, Seq::empty(), f)
                        && requested(settled(f, "Wikipedia"@, "not found in Wikipedia search"@), u) == request_view(r),
            },
    {
        let url = match Wikipedia::request_url(identity) {
            Ok(u) => u,
            Err(o) => return Err(o),
        };
        let ghost u = url@;
        let fetched = transport.get(url.as_str());
        let ghost fv = fetched_view(fetched);
        let r = match Wikipedia::settle_reply(fetched) {
            Ok(resp) => Ok((url, resp)),
            Err(o) => Err(o),
        };
        proof {
            assert(requested(settled(fv, "Wikipedia"@, "not found in Wikipedia search"@), u) == request_view(r));
        }
        r
    }

    /// The Outcome for a 200 body that could not be read.
    pub fn malformed(reason: &str) -> (o: Outcome)
        ensures
            o@ == OutcomeView::Failed("unexpected Wikipedia response: "@ + reason@),
    {
        Outcome::Failed { error: concat2("unexpected Wikipedia response: ", reason) }
    }

    /// The Outcome for a readable reply: the hit count (zero included), or
    /// `Failed` when the count is missing: a missing field is never a
    /// silent zero.
    pub fn classify(f: &SearchInfo, url: &str, canonical: &str, as_of: Timestamp) -> (o: Outcome)
        ensures
            o@ == classify_spec(*f, url@, canonical@, as_of),
    {
        match f.totalhits {
            Some(n) => crate::model::one_metric(cumulative_metric(
                "wikipedia_mentions",
                Category::Attention,
                MetricValue::Count(n),
                "wikipedia",
                canonical,
                as_of,
                url,
                Some("English Wikipedia full-text search hits for this DOI; other-language Wikipedias are not counted"),
            )),
            None => Outcome::Failed { error: owned("unexpected Wikipedia response: missing searchinfo.totalhits") },
        }
    }
}

impl Provider for Wikipedia {
    fn name(&self) -> (r: &'static str)
        ensures
            r@ == "wikipedia"@,
    {
        "wikipedia"
    }

    fn category(&self) -> (r: Category)
        ensures
            r == Category::Attention,
    {
        Category::Attention
    }

    fn supports(&self, identity: &Identity) -> (r: bool)
        ensures
            r == supports_spec(identity@),
    {
        match identity {
            Identity::Paper(PaperId::Doi(_)) => true,
            _ => false,
        }
    }
}

} // verus!

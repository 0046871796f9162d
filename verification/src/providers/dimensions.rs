//! Dimensions Provider: a paper's citation count and its field- and
//! relative-citation ratios, by DOI.

use vstd::prelude::*;

use crate::identity::{Identity, IdentityView, PaperId};
use crate::model::{
    cumulative, cumulative_metric, metric_seq_view, opt_as_str, opt_view, push_if, push_metric, real_metric_value,
    real_value, Category, Metric, MetricValue, Outcome, OutcomeView, Real, Timestamp, ValueView,
};
use crate::provider::Provider;
use crate::providers::{request_view, requested, settle, settled};
use crate::text::{concat2, owned, push_str};
use crate::transport::{fetched_view, HttpResponse, Transport, TransportError};

verus! {

pub struct Dimensions;

pub open spec fn supports_spec(id: IdentityView) -> bool {
    id is Doi
}

pub open spec fn request_spec(id: IdentityView) -> Result<Seq<char>, OutcomeView> {
    match id {
        IdentityView::Doi(d) => Ok("https://metrics-api.dimensions.ai/doi/"@ + d),
        _ => Err(OutcomeView::NotApplicable("Dimensions requires a DOI"@)),
    }
}

/// The fields of a Dimensions metrics reply.
pub struct DimensionsMetrics {
    pub times_cited: Option<u64>,
    pub field_citation_ratio: Option<Real>,
    pub relative_citation_ratio: Option<Real>,
    pub license: Option<String>,
}

pub open spec fn fcr_note() -> Seq<char> {
    "Field Citation Ratio; 1.0 = world average for the field and year"@
}

pub open spec fn rcr_note() -> Seq<char> {
    "Relative Citation Ratio; 1.0 = NIH-funded benchmark"@
}

pub open spec fn dimensions_metrics(f: DimensionsMetrics, url: Seq<char>, canonical: Seq<char>, as_of: Timestamp) -> Seq<crate::model::MetricView> {
    let m1 = match f.times_cited {
        Some(n) => seq![cumulative("citations"@, Category::Citations, ValueView::Count(n), "dimensions"@, canonical, as_of, url, opt_view(f.license))],
        None => seq![],
    };
    let m2 = match f.field_citation_ratio {
        Some(r) => m1.push(cumulative("fcr"@, Category::Citations, real_value(r), "dimensions"@, canonical, as_of, url, Some(fcr_note()))),
        None => m1,
    };
    match f.relative_citation_ratio {
        Some(r) => m2.push(cumulative("rcr"@, Category::Citations, real_value(r), "dimensions"@, canonical, as_of, url, Some(rcr_note()))),
        None => m2,
    }
}

pub open spec fn classify_spec(f: DimensionsMetrics, url: Seq<char>, canonical: Seq<char>, as_of: Timestamp) -> OutcomeView {
    let ms = dimensions_metrics(f, url, canonical, as_of);
    if ms.len() == 0 {
        OutcomeView::NotApplicable("Dimensions returned no citation metrics for this record"@)
    } else {
        OutcomeView::Values(ms, None)
    }
}

impl Dimensions {
    /// The URL to fetch for `identity`, or the Outcome when there is no DOI.
    pub fn request_url(identity: &Identity) -> (r: Result<String, Outcome>)
        ensures
            match (r, request_spec(identity@)) {
                (Ok(u), Ok(v)) => u@ == v,
                (Err(o), Err(v)) => o@ == v,
                _ => false,
            },
    {
        match identity {
            Identity::Paper(PaperId::Doi(d)) => Ok(concat2("https://metrics-api.dimensions.ai/doi/", d.as_str())),
            _ => Err(Outcome::NotApplicable { note: owned("Dimensions requires a DOI") }),
        }
    }

    /// The first decision on Dimensions' reply.
    pub fn settle_reply(fetched: Result<HttpResponse, TransportError>) -> (r: Result<HttpResponse, Outcome>)
        ensures
            match (r, settled(fetched_view(fetched), "Dimensions"@, "not found in Dimensions"@)) {
                (Ok(resp), Ok(v)) => resp@ == v,
                (Err(o), Err(v)) => o@ == v,
                _ => false,
            },
    {
        settle(fetched, "Dimensions", "not found in Dimensions")
    }

    /// Requests `identity`'s record through `transport`: its URL and the 200
    /// reply to read, or the Outcome already decided. No request is made for
    /// an Identity Dimensions cannot answer.
    pub fn request<T: Transport>(identity: &Identity, transport: &mut T) -> (r: Result<(String, HttpResponse), Outcome>)
        ensures
            match request_spec(identity@) {
                Err(v) => r is Err && r->Err_0@ == v && *final(transport) == *old(transport),
                Ok(u) => exists|f: Result<crate::transport::HttpResponseView, crate::transport::TransportErrorView>|
                    #![trigger old(transport).replies(final(transport), u, Seq::empty(), f)]
                    old(transport).replies(final(transport), u, Seq::empty(), f)
                        && requested(settled(f, "Dimensions"@, "not found in Dimensions"@), u) == request_view(r),
            },
    {
        let url = match Dimensions::request_url(identity) {
            Ok(u) => u,
            Err(o) => return Err(o),
        };
        let ghost u = url@;
        let fetched = transport.get(url.as_str());
        let ghost fv = fetched_view(fetched);
        let r = match Dimensions::settle_reply(fetched) {
            Ok(resp) => Ok((url, resp)),
            Err(o) => Err(o),
        };
        proof {
            assert(requested(settled(fv, "Dimensions"@, "not found in Dimensions"@), u) == request_view(r));
        }
        r
    }

    /// The Outcome for a 200 body that could not be read.
    pub fn malformed(reason: &str) -> (o: Outcome)
        ensures
            o@ == OutcomeView::Failed("unexpected Dimensions response: "@ + reason@),
    {
        Outcome::Failed { error: concat2("unexpected Dimensions response: ", reason) }
    }

    /// The Outcome for a readable reply: citations (noted with the record's
    /// licence), FCR and RCR, each when present; `NotApplicable` when none is.
    pub fn classify(f: &DimensionsMetrics, url: &str, canonical: &str, as_of: Timestamp) -> (o: Outcome)
        ensures
            o@ == classify_spec(*f, url@, canonical@, as_of),
    {
        let mut ms: Vec<Metric> = Vec::new();
        assert(metric_seq_view(ms@) =~= seq![]);
        if let Some(n) = f.times_cited {
            push_metric(&mut ms, cumulative_metric(
                "citations", Category::Citations, MetricValue::Count(n), "dimensions", canonical, as_of, url,
                opt_as_str(&f.license),
            ));
        }
        if let Some(r) = &f.field_citation_ratio {
            push_metric(&mut ms, cumulative_metric(
                "fcr", Category::Citations, real_metric_value(r), "dimensions", canonical, as_of, url,
                Some("Field Citation Ratio; 1.0 = world average for the field and year"),
            ));
        }
        if let Some(r) = &f.relative_citation_ratio {
            push_metric(&mut ms, cumulative_metric(
                "rcr", Category::Citations, real_metric_value(r), "dimensions", canonical, as_of, url,
                Some("Relative Citation Ratio; 1.0 = NIH-funded benchmark"),
            ));
        }
        if ms.len() == 0 {
            Outcome::NotApplicable { note: owned("Dimensions returned no citation metrics for this record") }
        } else {
            crate::model::values_of(ms)
        }
    }
}

impl Provider for Dimensions {
    fn name(&self) -> (r: &'static str)
        ensures
            r@ == "dimensions"@,
    {
        "dimensions"
    }

    fn category(&self) -> (r: Category)
        ensures
            r == Category::Citations,
    {
        Category::Citations
    }

    fn supports(&self, identity: &Identity) -> (r: bool)
        ensures
            r == supports_spec(identity@),
    {
        match identity {
            Identity::Paper(PaperId::Doi(_)) => true,
            _ => false,
        }
    }
}

} // verus!

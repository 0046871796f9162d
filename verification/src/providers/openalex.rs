//! OpenAlex Provider: a paper's citation and normalisation Metrics and its
//! open-access status; for a repository, the number of indexed scholarly
//! works whose full text mentions it. Free, no key.

use vstd::prelude::*;

use crate::identity::{Identity, IdentityView, PaperId};
use crate::model::{
    cumulative, cumulative_metric, metric_seq_view, opt_view, push_metric, real_metric_value, real_value, Category,
    Metric, MetricValue, MetricView, Outcome, OutcomeView, Real, Timestamp, ValueView,
};
use crate::provider::Provider;
use crate::providers::{percent_encode, percent_encoded, request_view, requested, settle, settled};
use crate::text::{concat2, owned, push_str};
use crate::transport::{fetched_view, HttpResponse, Transport, TransportError};

verus! {

pub struct OpenAlex;

pub open spec fn supports_spec(id: IdentityView) -> bool {
    id is Doi || id is Pmid || id is Repo
}

pub open spec fn repo_filter(owner: Seq<char>, name: Seq<char>) -> Seq<char> {
    "fulltext.search:\"github.com/"@ + owner + "/"@ + name + "\",type:article|preprint"@
}

/// The full-text search URL for a repository, derived from its canonical
/// identity so that every input form gives the same query.
pub open spec fn repo_search_spec(id: IdentityView) -> Option<Seq<char>> {
    match id {
        IdentityView::Repo(_, owner, name) => Some(
            "https://api.openalex.org/works?filter="@ + percent_encoded(repo_filter(owner, name)) + "&per-page=1&select=id"@,
        ),
        _ => None,
    }
}

pub open spec fn work_spec(id: IdentityView) -> Result<Seq<char>, OutcomeView> {
    match id {
        IdentityView::Doi(d) => Ok("https://api.openalex.org/works/doi:"@ + d),
        IdentityView::Pmid(p) => Ok("https://api.openalex.org/works/pmid:"@ + p),
        _ => Err(OutcomeView::NotApplicable("OpenAlex only supports papers and repositories"@)),
    }
}

/// A work's normalised citation percentile. `value_percent` is the
/// percentile on a 0-100 scale.
pub struct OaPercentile {
    pub value_percent: Option<Real>,
    pub is_in_top_1_percent: Option<bool>,
    pub is_in_top_10_percent: Option<bool>,
}

/// The fields of an OpenAlex work record.
pub struct OaWork {
    pub cited_by_count: Option<u64>,
    pub fwci: Option<Real>,
    pub citation_normalized_percentile: Option<OaPercentile>,
    /// `open_access.oa_status`.
    pub oa_status: Option<String>,
}

pub open spec fn percentile_note(p: OaPercentile) -> Option<Seq<char>> {
    if p.is_in_top_1_percent == Some(true) {
        Some("top 1% in its field, year, and type"@)
    } else if p.is_in_top_10_percent == Some(true) {
        Some("top 10% in its field, year, and type"@)
    } else {
        None
    }
}

pub open spec fn fwci_note() -> Seq<char> {
    "field-weighted citation impact; 1.0 = world average"@
}

pub open spec fn oa_note() -> Seq<char> {
    "OpenAlex open-access status; \"closed\" means no open-access copy found"@
}

pub open spec fn work_metrics(w: OaWork, url: Seq<char>, canonical: Seq<char>, as_of: Timestamp) -> Seq<MetricView> {
    let m1 = match w.cited_by_count {
        Some(n) => seq![cumulative("citations"@, Category::Citations, ValueView::Count(n), "openalex"@, canonical, as_of, url, None)],
        None => seq![],
    };
    let m2 = match w.fwci {
        Some(r) => m1.push(cumulative("fwci"@, Category::Citations, real_value(r), "openalex"@, canonical, as_of, url, Some(fwci_note()))),
        None => m1,
    };
    let m3 = match w.citation_normalized_percentile {
        Some(p) => match p.value_percent {
            Some(v) => m2.push(cumulative("citation_percentile"@, Category::Citations, real_value(v), "openalex"@, canonical, as_of, url, percentile_note(p))),
            None => m2,
        },
        None => m2,
    };
    match w.oa_status {
        Some(s) => m3.push(cumulative("open_access"@, Category::Attention, ValueView::Text(s@), "openalex"@, canonical, as_of, url, Some(oa_note()))),
        None => m3,
    }
}

pub open spec fn classify_spec(w: OaWork, url: Seq<char>, canonical: Seq<char>, as_of: Timestamp) -> OutcomeView {
    let ms = work_metrics(w, url, canonical, as_of);
    if ms.len() == 0 {
        OutcomeView::NotApplicable("OpenAlex returned no citation metrics for this record"@)
    } else {
        OutcomeView::Values(ms, None)
    }
}

pub open spec fn mentions_note() -> Seq<char> {
    "indexed full-text search estimate, not a formal citation or verified literal URL count; partial coverage; self-mentions are included; article/preprint versions may be counted separately"@
}

pub open spec fn classify_repo_spec(count: Option<u64>, url: Seq<char>, canonical: Seq<char>, as_of: Timestamp) -> OutcomeView {
    match count {
        Some(n) => OutcomeView::Values(
            seq![cumulative("mentions"@, Category::Attention, ValueView::Count(n), "openalex"@, canonical, as_of, url, Some(mentions_note()))],
            None,
        ),
        None => OutcomeView::Failed("unexpected OpenAlex response: missing meta.count"@),
    }
}

fn note_for(p: &OaPercentile) -> (r: Option<&'static str>)
    ensures
        crate::model::str_opt(r) == percentile_note(*p),
{
    if p.is_in_top_1_percent == Some(true) {
        Some("top 1% in its field, year, and type")
    } else if p.is_in_top_10_percent == Some(true) {
        Some("top 10% in its field, year, and type")
    } else {
        None
    }
}

impl OpenAlex {
    /// The repository search URL, for a Repo Identity only.
    pub fn repo_search_url(identity: &Identity) -> (r: Option<String>)
        ensures
            match (r, repo_search_spec(identity@)) {
                (Some(u), Some(v)) => u@ == v,
                (None, None) => true,
                _ => false,
            },
    {
        match identity {
            Identity::Repo(repo) => {
                let mut filter = owned("fulltext.search:\"github.com/");
                push_str(&mut filter, repo.owner.as_str());
                push_str(&mut filter, "/");
                push_str(&mut filter, repo.name.as_str());
                push_str(&mut filter, "\",type:article|preprint");
                let mut u = owned("https://api.openalex.org/works?filter=");
                let enc = percent_encode(filter.as_str());
                push_str(&mut u, enc.as_str());
                push_str(&mut u, "&per-page=1&select=id");
                Some(u)
            },
            _ => None,
        }
    }

    /// The work URL for a paper, or the Outcome for anything else.
    pub fn work_url(identity: &Identity) -> (r: Result<String, Outcome>)
        ensures
            match (r, work_spec(identity@)) {
                (Ok(u), Ok(v)) => u@ == v,
                (Err(o), Err(v)) => o@ == v,
                _ => false,
            },
    {
        match identity {
            Identity::Paper(PaperId::Doi(d)) => Ok(concat2("https://api.openalex.org/works/doi:", d.as_str())),
            Identity::Paper(PaperId::Pmid(p)) => Ok(concat2("https://api.openalex.org/works/pmid:", p.as_str())),
            _ => Err(Outcome::NotApplicable { note: owned("OpenAlex only supports papers and repositories") }),
        }
    }

    /// The first decision on a work lookup's reply.
    pub fn settle_work(fetched: Result<HttpResponse, TransportError>) -> (r: Result<HttpResponse, Outcome>)
        ensures
            match (r, settled(fetched_view(fetched), "OpenAlex"@, "not found in OpenAlex"@)) {
                (Ok(resp), Ok(v)) => resp@ == v,
                (Err(o), Err(v)) => o@ == v,
                _ => false,
            },
    {
        settle(fetched, "OpenAlex", "not found in OpenAlex")
    }

    /// The first decision on a repository search's reply.
    pub fn settle_repo_search(fetched: Result<HttpResponse, TransportError>) -> (r: Result<HttpResponse, Outcome>)
        ensures
            match (r, settled(fetched_view(fetched), "OpenAlex"@, "repository search not found in OpenAlex"@)) {
                (Ok(resp), Ok(v)) => resp@ == v,
                (Err(o), Err(v)) => o@ == v,
                _ => false,
            },
    {
        settle(fetched, "OpenAlex", "repository search not found in OpenAlex")
    }

    /// For a repository, requests the full-text search for its GitHub URL
    /// through `transport`: the URL and the 200 reply to read, or the Outcome
    /// already decided; `None`, with no request, for any other Identity.
    pub fn request_repo_search<T: Transport>(identity: &Identity, transport: &mut T) -> (r: Option<Result<(String, HttpResponse), Outcome>>)
        ensures
            match repo_search_spec(identity@) {
                None => r is None && *final(transport) == *old(transport),
                Some(u) => r is Some && exists|f: Result<crate::transport::HttpResponseView, crate::transport::TransportErrorView>|
                    #![trigger old(transport).replies(final(transport), u, Seq::empty(), f)]
                    old(transport).replies(final(transport), u, Seq::empty(), f)
                        && requested(settled(f, "OpenAlex"@, "repository search not found in OpenAlex"@), u) == request_view(r->Some_0),
            },
    {
        let url = match OpenAlex::repo_search_url(identity) {
            Some(u) => u,
            None => return None,
        };
        let ghost u = url@;
        let fetched = transport.get(url.as_str());
        let ghost fv = fetched_view(fetched);
        let r = match OpenAlex::settle_repo_search(fetched) {
            Ok(resp) => Ok((url, resp)),
            Err(o) => Err(o),
        };
        proof {
            assert(requested(settled(fv, "OpenAlex"@, "repository search not found in OpenAlex"@), u) == request_view(r));
        }
        Some(r)
    }

    /// Requests a paper's record through `transport`: its URL and the 200
    /// reply to read, or the Outcome already decided. No request is made for
    /// an Identity that is not a paper.
    pub fn request_paper<T: Transport>(identity: &Identity, transport: &mut T) -> (r: Result<(String, HttpResponse), Outcome>)
        ensures
            match work_spec(identity@) {
                Err(v) => r is Err && r->Err_0@ == v && *final(transport) == *old(transport),
                Ok(u) => exists|f: Result<crate::transport::HttpResponseView, crate::transport::TransportErrorView>|
                    #![trigger old(transport).replies(final(transport), u, Seq::empty(), f)]
                    old(transport).replies(final(transport), u, Seq::empty(), f)
                        && requested(settled(f, "OpenAlex"@, "not found in OpenAlex"@), u) == request_view(r),
            },
    {
        let url = match OpenAlex::work_url(identity) {
            Ok(u) => u,
            Err(o) => return Err(o),
        };
        let ghost u = url@;
        let fetched = transport.get(url.as_str());
        let ghost fv = fetched_view(fetched);
        let r = match OpenAlex::settle_work(fetched) {
            Ok(resp) => Ok((url, resp)),
            Err(o) => Err(o),
        };
        proof {
            assert(requested(settled(fv, "OpenAlex"@, "not found in OpenAlex"@), u) == request_view(r));
        }
        r
    }

    /// The Outcome for a 200 body that could not be read.
    pub fn malformed(reason: &str) -> (o: Outcome)
        ensures
            o@ == OutcomeView::Failed("unexpected OpenAlex response: "@ + reason@),
    {
        Outcome::Failed { error: concat2("unexpected OpenAlex response: ", reason) }
    }

    /// The Outcome for a repository search: the hit count as an Attention
    /// estimate, or `Failed` when the count is missing.
    pub fn classify_repo(count: Option<u64>, url: &str, canonical: &str, as_of: Timestamp) -> (o: Outcome)
        ensures
            o@ == classify_repo_spec(count, url@, canonical@, as_of),
    {
        match count {
            Some(n) => crate::model::one_metric(cumulative_metric(
                "mentions",
                Category::Attention,
                MetricValue::Count(n),
                "openalex",
                canonical,
                as_of,
                url,
                Some("indexed full-text search estimate, not a formal citation or verified literal URL count; partial coverage; self-mentions are included; article/preprint versions may be counted separately"),
            )),
            None => Outcome::Failed { error: owned("unexpected OpenAlex response: missing meta.count") },
        }
    }

    /// The Outcome for a work record: citations, FWCI, citation percentile
    /// (noted with its top-1%/top-10% standing) and open-access status, each
    /// when present; `NotApplicable` when none is.
    pub fn classify(w: &OaWork, url: &str, canonical: &str, as_of: Timestamp) -> (o: Outcome)
        ensures
            o@ == classify_spec(*w, url@, canonical@, as_of),
    {
        let mut ms: Vec<Metric> = Vec::new();
        assert(metric_seq_view(ms@) =~= seq![]);
        if let Some(n) = w.cited_by_count {
            push_metric(&mut ms, cumulative_metric(
                "citations", Category::Citations, MetricValue::Count(n), "openalex", canonical, as_of, url, None,
            ));
        }
        if let Some(r) = &w.fwci {
            push_metric(&mut ms, cumulative_metric(
                "fwci", Category::Citations, real_metric_value(r), "openalex", canonical, as_of, url,
                Some("field-weighted citation impact; 1.0 = world average"),
            ));
        }
        if let Some(p) = &w.citation_normalized_percentile {
            if let Some(v) = &p.value_percent {
                push_metric(&mut ms, cumulative_metric(
                    "citation_percentile", Category::Citations, real_metric_value(v), "openalex", canonical, as_of,
                    url, note_for(p),
                ));
            }
        }
        if let Some(s) = &w.oa_status {
            push_metric(&mut ms, cumulative_metric(
                "open_access", Category::Attention, MetricValue::Text(s.clone()), "openalex", canonical, as_of, url,
                Some("OpenAlex open-access status; \"closed\" means no open-access copy found"),
            ));
        }
        if ms.len() == 0 {
            Outcome::NotApplicable { note: owned("OpenAlex returned no citation metrics for this record") }
        } else {
            crate::model::values_of(ms)
        }
    }
}

impl Provider for OpenAlex {
    fn name(&self) -> (r: &'static str)
        ensures
            r@ == "openalex"@,
    {
        "openalex"
    }

    fn category(&self) -> (r: Category)
        ensures
            r == Category::Citations,
    {
        Category::Citations
    }

    fn supports(&self, identity: &Identity) -> (r: bool)
        ensures
            r == supports_spec(identity@),
    {
        match identity {
            Identity::Paper(_) => true,
            Identity::Repo(_) => true,
            Identity::Package(_) => false,
        }
    }
}

} // verus!

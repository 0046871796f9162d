//! Europe PMC Provider: a paper's citation count; for a repository, the
//! number of indexed life-sciences works whose full text mentions it.

use vstd::prelude::*;

use crate::identity::{Identity, IdentityView, PaperId};
use crate::model::{cumulative, cumulative_metric, Category, MetricValue, Outcome, OutcomeView, Timestamp, ValueView};
use crate::provider::Provider;
use crate::providers::{percent_encode, percent_encoded, request_view, requested, settle, settled};
use crate::text::{chars_of, concat2, owned, push_char, push_str};
use crate::transport::{fetched_view, HttpResponse, Transport, TransportError};

verus! {

pub struct EuropePmc;

pub open spec fn supports_spec(id: IdentityView) -> bool {
    id is Doi || id is Pmid || id is Repo
}

pub open spec fn repo_query(owner: Seq<char>, name: Seq<char>) -> Seq<char> {
    "\"github.com/"@ + owner + "/"@ + name + "\" AND (SRC:MED OR SRC:PPR)"@
}

pub open spec fn repo_search_spec(id: IdentityView) -> Option<Seq<char>> {
    match id {
        IdentityView::Repo(_, owner, name) => Some(
            "https://www.ebi.ac.uk/europepmc/webservices/rest/search?query="@ + percent_encoded(repo_query(owner, name))
                + "&pageSize=1&resultType=idlist&format=json"@,
        ),
        _ => None,
    }
}

/// Every space replaced by `+`.
pub open spec fn plus_for_space(s: Seq<char>) -> Seq<char> {
    s.map_values(|c: char| if c == ' ' { '+' } else { c })
}

pub open spec fn paper_query(id: IdentityView) -> Option<Seq<char>> {
    match id {
        IdentityView::Doi(d) => Some("DOI:"@ + d),
        IdentityView::Pmid(p) => Some("EXT_ID:"@ + p + " AND SRC:MED"@),
        _ => None,
    }
}

pub open spec fn search_spec(id: IdentityView) -> Result<Seq<char>, OutcomeView> {
    match paper_query(id) {
        Some(q) => Ok("https://www.ebi.ac.uk/europepmc/webservices/rest/search?query="@ + plus_for_space(q) + "&format=json"@),
        None => Err(OutcomeView::NotApplicable("Europe PMC only supports papers and repositories"@)),
    }
}

/// The fields of a Europe PMC search reply: the hit count, and each
/// result's `citedByCount`.
pub struct EuropePmcResponse {
    pub hit_count: u64,
    pub cited_by_counts: Vec<Option<u64>>,
}

pub open spec fn classify_spec(f: EuropePmcResponse, url: Seq<char>, canonical: Seq<char>, as_of: Timestamp) -> OutcomeView {
    if f.hit_count == 0 {
        OutcomeView::NotApplicable("not found in Europe PMC"@)
    } else {
        match (if f.cited_by_counts@.len() > 0 { f.cited_by_counts@[0] } else { None }) {
            Some(n) => OutcomeView::Values(
                seq![cumulative("citations"@, Category::Citations, ValueView::Count(n), "europe_pmc"@, canonical, as_of, url, Some("citation count from Europe PMC"@))],
                None,
            ),
            None => OutcomeView::NotApplicable("Europe PMC record has no citation count"@),
        }
    }
}

pub open spec fn mentions_note() -> Seq<char> {
    "indexed full-text search estimate, not a formal citation or verified literal URL count; partial coverage concentrated in life-sciences literature; self-mentions are included; journal article/preprint versions may be counted separately"@
}

pub open spec fn classify_repo_spec(hit_count: Option<u64>, url: Seq<char>, canonical: Seq<char>, as_of: Timestamp) -> OutcomeView {
    match hit_count {
        Some(n) => OutcomeView::Values(
            seq![cumulative("mentions"@, Category::Attention, ValueView::Count(n), "europe_pmc"@, canonical, as_of, url, Some(mentions_note()))],
            None,
        ),
        None => OutcomeView::Failed("unexpected Europe PMC response: missing hitCount"@),
    }
}

fn push_plus_for_space(out: &mut String, s: &str)
    ensures
        final(out)@ == old(out)@ + plus_for_space(s@),
{
    let v = chars_of(s);
    let ghost start = out@;
    let mut i: usize = 0;
    while i < v.len()
        invariant
            i <= v.len(),
            v@ == s@,
            out@ == start + plus_for_space(v@.take(i as int)),
        decreases v.len() - i,
    {
        let c = v[i];
        push_char(out, if c == ' ' { '+' } else { c });
        i = i + 1;
        assert(plus_for_space(v@.take(i as int)) =~= plus_for_space(v@.take(i - 1)).push(if c == ' ' { '+' } else { c }));
    }
    assert(v@.take(v.len() as int) =~= v@);
}

impl EuropePmc {
    /// The repository search URL, for a Repo Identity only.
    pub fn repo_search_url(identity: &Identity) -> (r: Option<String>)
        ensures
            match (r, repo_search_spec(identity@)) {
                (Some(u), Some(v)) => u@ == v,
                (None, None) => true,
                _ => false,
            },
    {
        match identity {
            Identity::Repo(repo) => {
                let mut q = owned("\"github.com/");
                push_str(&mut q, repo.owner.as_str());
                push_str(&mut q, "/");
                push_str(&mut q, repo.name.as_str());
                push_str(&mut q, "\" AND (SRC:MED OR SRC:PPR)");
                let mut u = owned("https://www.ebi.ac.uk/europepmc/webservices/rest/search?query=");
                let enc = percent_encode(q.as_str());
                push_str(&mut u, enc.as_str());
                push_str(&mut u, "&pageSize=1&resultType=idlist&format=json");
                Some(u)
            },
            _ => None,
        }
    }

    /// The search URL for a paper, or the Outcome for anything else.
    pub fn search_url(identity: &Identity) -> (r: Result<String, Outcome>)
        ensures
            match (r, search_spec(identity@)) {
                (Ok(u), Ok(v)) => u@ == v,
                (Err(o), Err(v)) => o@ == v,
                _ => false,
            },
    {
        let q = match identity {
            Identity::Paper(PaperId::Doi(d)) => concat2("DOI:", d.as_str()),
            Identity::Paper(PaperId::Pmid(p)) => {
                let mut q = concat2("EXT_ID:", p.as_str());
                push_str(&mut q, " AND SRC:MED");
                q
            },
            _ => {
                return Err(Outcome::NotApplicable { note: owned("Europe PMC only supports papers and repositories") });
            },
        };
        let mut u = owned("https://www.ebi.ac.uk/europepmc/webservices/rest/search?query=");
        push_plus_for_space(&mut u, q.as_str());
        push_str(&mut u, "&format=json");
        Ok(u)
    }

    /// The first decision on a paper search's reply.
    pub fn settle_search(fetched: Result<HttpResponse, TransportError>) -> (r: Result<HttpResponse, Outcome>)
        ensures
            match (r, settled(fetched_view(fetched), "Europe PMC"@, "not found in Europe PMC"@)) {
                (Ok(resp), Ok(v)) => resp@ == v,
                (Err(o), Err(v)) => o@ == v,
                _ => false,
            },
    {
        settle(fetched, "Europe PMC", "not found in Europe PMC")
    }

    /// The first decision on a repository search's reply.
    pub fn settle_repo_search(fetched: Result<HttpResponse, TransportError>) -> (r: Result<HttpResponse, Outcome>)
        ensures
            match (r, settled(fetched_view(fetched), "Europe PMC"@, "repository search not found in Europe PMC"@)) {
                (Ok(resp), Ok(v)) => resp@ == v,
                (Err(o), Err(v)) => o@ == v,
                _ => false,
            },
    {
        settle(fetched, "Europe PMC", "repository search not found in Europe PMC")
    }

    /// For a repository, requests the full-text search for its GitHub URL
    /// through `transport`: the URL and the 200 reply to read, or the Outcome
    /// already decided; `None`, with no request, for any other Identity.
    pub fn request_repo_search<T: Transport>(identity: &Identity, transport: &mut T) -> (r: Option<Result<(String, HttpResponse), Outcome>>)
        ensures
            match repo_search_spec(identity@) {
                None => r is None && *final(transport) == *old(transport),
                Some(u) => r is Some && exists|f: Result<crate::transport::HttpResponseView, crate::transport::TransportErrorView>|
                    #![trigger old(transport).replies(final(transport), u, Seq::empty(), f)]
                    old(transport).replies(final(transport), u, Seq::empty(), f)
                        && requested(settled(f, "Europe PMC"@, "repository search not found in Europe PMC"@), u) == request_view(r->Some_0),
            },
    {
        let url = match EuropePmc::repo_search_url(identity) {
            Some(u) => u,
            None => return None,
        };
        let ghost u = url@;
        let fetched = transport.get(url.as_str());
        let ghost fv = fetched_view(fetched);
        let r = match EuropePmc::settle_repo_search(fetched) {
            Ok(resp) => Ok((url, resp)),
            Err(o) => Err(o),
        };
        proof {
            assert(requested(settled(fv, "Europe PMC"@, "repository search not found in Europe PMC"@), u) == request_view(r));
        }
        Some(r)
    }

    /// Requests a paper's record through `transport`: its URL and the 200
    /// reply to read, or the Outcome already decided. No request is made for
    /// an Identity that is not a paper.
    pub fn request_paper<T: Transport>(identity: &Identity, transport: &mut T) -> (r: Result<(String, HttpResponse), Outcome>)
        ensures
            match search_spec(identity@) {
                Err(v) => r is Err && r->Err_0@ == v && *final(transport) == *old(transport),
                Ok(u) => exists|f: Result<crate::transport::HttpResponseView, crate::transport::TransportErrorView>|
                    #![trigger old(transport).replies(final(transport), u, Seq::empty(), f)]
                    old(transport).replies(final(transport), u, Seq::empty(), f)
                        && requested(settled(f, "Europe PMC"@, "not found in Europe PMC"@), u) == request_view(r),
            },
    {
        let url = match EuropePmc::search_url(identity) {
            Ok(u) => u,
            Err(o) => return Err(o),
        };
        let ghost u = url@;
        let fetched = transport.get(url.as_str());
        let ghost fv = fetched_view(fetched);
        let r = match EuropePmc::settle_search(fetched) {
            Ok(resp) => Ok((url, resp)),
            Err(o) => Err(o),
        };
        proof {
            assert(requested(settled(fv, "Europe PMC"@, "not found in Europe PMC"@), u) == request_view(r));
        }
        r
    }

    /// The Outcome for a 200 body that could not be read.
    pub fn malformed(reason: &str) -> (o: Outcome)
        ensures
            o@ == OutcomeView::Failed("unexpected Europe PMC response: "@ + reason@),
    {
        Outcome::Failed { error: concat2("unexpected Europe PMC response: ", reason) }
    }

    /// The Outcome for a repository search: the hit count as an Attention
    /// estimate, or `Failed` when it is missing.
    pub fn classify_repo(hit_count: Option<u64>, url: &str, canonical: &str, as_of: Timestamp) -> (o: Outcome)
        ensures
            o@ == classify_repo_spec(hit_count, url@, canonical@, as_of),
    {
        match hit_count {
            Some(n) => crate::model::one_metric(cumulative_metric(
                "mentions",
                Category::Attention,
                MetricValue::Count(n),
                "europe_pmc",
                canonical,
                as_of,
                url,
                Some("indexed full-text search estimate, not a formal citation or verified literal URL count; partial coverage concentrated in life-sciences literature; self-mentions are included; journal article/preprint versions may be counted separately"),
            )),
            None => Outcome::Failed { error: owned("unexpected Europe PMC response: missing hitCount") },
        }
    }

    /// The Outcome for a paper search: no hit is `NotApplicable`; otherwise
    /// the first result's citation count, or `NotApplicable` without one.
    pub fn classify(f: &EuropePmcResponse, url: &str, canonical: &str, as_of: Timestamp) -> (o: Outcome)
        ensures
            o@ == classify_spec(*f, url@, canonical@, as_of),
    {
        if f.hit_count == 0 {
            return Outcome::NotApplicable { note: owned("not found in Europe PMC") };
        }
        let first = if f.cited_by_counts.len() > 0 { f.cited_by_counts[0] } else { None };
        match first {
            Some(n) => crate::model::one_metric(cumulative_metric(
                "citations",
                Category::Citations,
                MetricValue::Count(n),
                "europe_pmc",
                canonical,
                as_of,
                url,
                Some("citation count from Europe PMC"),
            )),
            None => Outcome::NotApplicable { note: owned("Europe PMC record has no citation count") },
        }
    }
}

impl Provider for EuropePmc {
    fn name(&self) -> (r: &'static str)
        ensures
            r@ == "europe_pmc"@,
    {
        "europe_pmc"
    }

    fn category(&self) -> (r: Category)
        ensures
            r == Category::Citations,
    {
        Category::Citations
    }

    fn supports(&self, identity: &Identity) -> (r: bool)
        ensures
            r == supports_spec(identity@),
    {
        match identity {
            Identity::Paper(_) => true,
            Identity::Repo(_) => true,
            Identity::Package(_) => false,
        }
    }
}

} // verus!

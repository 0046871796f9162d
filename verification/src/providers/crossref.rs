//! Crossref Provider: a DOI's reference count plus the bibliographic metadata
//! (title, authors, venue, year) that labels the paper in Reports.

use vstd::prelude::*;

use crate::identity::{Identity, IdentityView, PaperId};
use crate::model::{
    cumulative, cumulative_metric, metric_seq_view, opt_view, push_metric, seq_views, Category, MetadataView,
    Metric, MetricValue, Outcome, OutcomeView, PaperMetadata, Timestamp, ValueView,
};
use crate::provider::Provider;
use crate::providers::{request_view, requested, settle, settled};
use crate::text::{concat2, concat3, owned};
use crate::transport::{fetched_view, HttpResponse, Transport, TransportError};

verus! {

pub struct Crossref;

pub open spec fn supports_spec(id: IdentityView) -> bool {
    id is Doi
}

pub open spec fn request_spec(id: IdentityView) -> Result<Seq<char>, OutcomeView> {
    match id {
        IdentityView::Doi(d) => Ok("https://api.crossref.org/works/"@ + d),
        _ => Err(OutcomeView::NotApplicable("Crossref requires a DOI"@)),
    }
}

pub struct CrossrefAuthor {
    pub given: Option<String>,
    pub family: Option<String>,
}

/// The fields of a Crossref work record (the reply's `message`).
pub struct CrossrefWork {
    pub title: Option<Vec<String>>,
    pub container_title: Option<Vec<String>>,
    pub author: Option<Vec<CrossrefAuthor>>,
    /// `issued.date-parts`.
    pub date_parts: Option<Vec<Vec<i64>>>,
    pub is_referenced_by_count: Option<u64>,
}

/// An author's display name: "given family", or whichever half is present.
pub open spec fn display_name(a: CrossrefAuthor) -> Option<Seq<char>> {
    match (a.given, a.family) {
        (Some(g), Some(f)) => Some(g@ + " "@ + f@),
        (None, Some(f)) => Some(f@),
        (Some(g), None) => Some(g@),
        (None, None) => None,
    }
}

/// The display names of the authors that have one, in order.
pub open spec fn author_names(authors: Seq<CrossrefAuthor>) -> Seq<Seq<char>>
    decreases authors.len(),
{
    if authors.len() == 0 {
        seq![]
    } else {
        let rest = author_names(authors.drop_last());
        match display_name(authors.last()) {
            Some(n) => rest.push(n),
            None => rest,
        }
    }
}

pub open spec fn first_text(v: Option<Vec<String>>) -> Option<Seq<char>> {
    match v {
        Some(items) if items@.len() > 0 => Some(items@[0]@),
        _ => None,
    }
}

pub open spec fn issued_year(dp: Option<Vec<Vec<i64>>>) -> Option<i32> {
    match dp {
        Some(parts) if parts@.len() > 0 && parts@[0]@.len() > 0 => Some(parts@[0]@[0] as i32),
        _ => None,
    }
}

pub open spec fn work_authors(w: CrossrefWork) -> Seq<Seq<char>> {
    match w.author {
        Some(a) => author_names(a@),
        None => seq![],
    }
}

pub open spec fn work_metadata(w: CrossrefWork, url: Seq<char>, canonical: Seq<char>) -> Option<MetadataView> {
    let title = first_text(w.title);
    let container = first_text(w.container_title);
    let authors = work_authors(w);
    let year = issued_year(w.date_parts);
    if title is Some || container is Some || authors.len() > 0 || year is Some {
        Some(MetadataView { identity: canonical, title, authors, container, year, provider: "crossref"@, source: url })
    } else {
        None
    }
}

pub open spec fn classify_spec(message: Option<CrossrefWork>, url: Seq<char>, canonical: Seq<char>, as_of: Timestamp) -> OutcomeView {
    match message {
        None => OutcomeView::Failed("Crossref response had no message"@),
        Some(w) => {
            let ms = match w.is_referenced_by_count {
                Some(n) => seq![cumulative("citations"@, Category::Citations, ValueView::Count(n), "crossref"@, canonical, as_of, url, Some("times referenced, per Crossref"@))],
                None => seq![],
            };
            let md = work_metadata(w, url, canonical);
            if ms.len() == 0 && md is None {
                OutcomeView::NotApplicable("Crossref returned no metadata for this DOI"@)
            } else {
                OutcomeView::Values(ms, md)
            }
        },
    }
}

fn author_display(a: &CrossrefAuthor) -> (r: Option<String>)
    ensures
        opt_view(r) == display_name(*a),
{
    match (&a.given, &a.family) {
        (Some(g), Some(f)) => Some(concat3(g.as_str(), " ", f.as_str())),
        (None, Some(f)) => Some(f.clone()),
        (Some(g), None) => Some(g.clone()),
        (None, None) => None,
    }
}

fn names_of(authors: &Vec<CrossrefAuthor>) -> (r: Vec<String>)
    ensures
        seq_views(r@) == author_names(authors@),
{
    let mut r: Vec<String> = Vec::new();
    let mut i: usize = 0;
    assert(seq_views(r@) =~= seq![]);
    while i < authors.len()
        invariant
            i <= authors.len(),
            seq_views(r@) == author_names(authors@.take(i as int)),
        decreases authors.len() - i,
    {
        assert(authors@.take(i + 1).drop_last() =~= authors@.take(i as int));
        if let Some(n) = author_display(&authors[i]) {
            let ghost before = r@;
            r.push(n);
            assert(seq_views(r@) =~= seq_views(before).push(n@));
        }
        i = i + 1;
    }
    assert(authors@.take(authors.len() as int) =~= authors@);
    r
}

fn first_of(v: &Option<Vec<String>>) -> (r: Option<String>)
    ensures
        opt_view(r) == first_text(*v),
{
    match v {
        Some(items) => if items.len() > 0 { Some(items[0].clone()) } else { None },
        None => None,
    }
}

fn year_of(dp: &Option<Vec<Vec<i64>>>) -> (r: Option<i32>)
    ensures
        r == issued_year(*dp),
{
    match dp {
        Some(parts) => if parts.len() > 0 && parts[0].len() > 0 {
            Some(parts[0][0] as i32)
        } else {
            None
        },
        None => None,
    }
}

impl Crossref {
    /// The URL to fetch for `identity`, or the Outcome when there is no DOI.
    pub fn request_url(identity: &Identity) -> (r: Result<String, Outcome>)
        ensures
            match (r, request_spec(identity@)) {
                (Ok(u), Ok(v)) => u@ == v,
                (Err(o), Err(v)) => o@ == v,
                _ => false,
            },
    {
        match identity {
            Identity::Paper(PaperId::Doi(d)) => Ok(concat2("https://api.crossref.org/works/", d.as_str())),
            _ => Err(Outcome::NotApplicable { note: owned("Crossref requires a DOI") }),
        }
    }

    /// The first decision on Crossref's reply.
    pub fn settle_reply(fetched: Result<HttpResponse, TransportError>) -> (r: Result<HttpResponse, Outcome>)
        ensures
            match (r, settled(fetched_view(fetched), "Crossref"@, "not found in Crossref"@)) {
                (Ok(resp), Ok(v)) => resp@ == v,
                (Err(o), Err(v)) => o@ == v,
                _ => false,
            },
    {
        settle(fetched, "Crossref", "not found in Crossref")
    }

    /// Requests `identity`'s record through `transport`: its URL and the 200
    /// reply to read, or the Outcome already decided. No request is made for
    /// an Identity Crossref cannot answer.
    pub fn request<T: Transport>(identity: &Identity, transport: &mut T) -> (r: Result<(String, HttpResponse), Outcome>)
        ensures
            match request_spec(identity@) {
                Err(v) => r is Err && r->Err_0@ == v && *final(transport) == *old(transport),
                Ok(u) => exists|f: Result<crate::transport::HttpResponseView, crate::transport::TransportErrorView>|
                    #![trigger old(transport).replies(final(transport), u, Seq::empty(), f)]
                    old(transport).replies(final(transport), u, Seq::empty(), f)
                        && requested(settled(f, "Crossref"@, "not found in Crossref"@), u) == request_view(r),
            },
    {
        let url = match Crossref::request_url(identity) {
            Ok(u) => u,
            Err(o) => return Err(o),
        };
        let ghost u = url@;
        let fetched = transport.get(url.as_str());
        let ghost fv = fetched_view(fetched);
        let r = match Crossref::settle_reply(fetched) {
            Ok(resp) => Ok((url, resp)),
            Err(o) => Err(o),
        };
        proof {
            assert(requested(settled(fv, "Crossref"@, "not found in Crossref"@), u) == request_view(r));
        }
        r
    }

    /// The Outcome for a 200 body that could not be read.
    pub fn malformed(reason: &str) -> (o: Outcome)
        ensures
            o@ == OutcomeView::Failed("unexpected Crossref response: "@ + reason@),
    {
        Outcome::Failed { error: concat2("unexpected Crossref response: ", reason) }
    }

    /// The Outcome for a readable reply: the reference count when present,
    /// plus the paper's metadata when any part of it is present;
    /// `NotApplicable` when there is neither, `Failed` without a message.
    pub fn classify(message: &Option<CrossrefWork>, url: &str, canonical: &str, as_of: Timestamp) -> (o: Outcome)
        ensures
            o@ == classify_spec(*message, url@, canonical@, as_of),
    {
        let w = match message {
            None => {
                return Outcome::Failed { error: owned("Crossref response had no message") };
            },
            Some(w) => w,
        };
        let mut ms: Vec<Metric> = Vec::new();
        assert(metric_seq_view(ms@) =~= seq![]);
        if let Some(n) = w.is_referenced_by_count {
            push_metric(&mut ms, cumulative_metric(
                "citations", Category::Citations, MetricValue::Count(n), "crossref", canonical, as_of, url,
                Some("times referenced, per Crossref"),
            ));
        }
        let title = first_of(&w.title);
        let container = first_of(&w.container_title);
        let authors: Vec<String> = match &w.author {
            Some(a) => names_of(a),
            None => Vec::new(),
        };
        assert(seq_views(Seq::<String>::empty()) =~= seq![]);
        let year = year_of(&w.date_parts);
        let has_metadata = title.is_some() || container.is_some() || authors.len() > 0 || year.is_some();
        let metadata = if has_metadata {
            Some(PaperMetadata {
                identity: owned(canonical),
                title,
                authors,
                container,
                year,
                provider: owned("crossref"),
                source: owned(url),
            })
        } else {
            None
        };
        if ms.len() == 0 && metadata.is_none() {
            Outcome::NotApplicable { note: owned("Crossref returned no metadata for this DOI") }
        } else {
            Outcome::Values { metrics: ms, metadata }
        }
    }
}

impl Provider for Crossref {
    fn name(&self) -> (r: &'static str)
        ensures
            r@ == "crossref"@,
    {
        "crossref"
    }

    fn category(&self) -> (r: Category)
        ensures
            r == Category::Citations,
    {
        Category::Citations
    }

    fn supports(&self, identity: &Identity) -> (r: bool)
        ensures
            r == supports_spec(identity@),
    {
        match identity {
            Identity::Paper(PaperId::Doi(_)) => true,
            _ => false,
        }
    }
}

} // verus!

//! Altmetric Provider: the opt-in half of the Attention Category — an overall
//! Attention Score plus a news/blog/policy/patent/social/Mendeley-readers
//! breakdown, gated behind a Details Page API key (`ALTMETRIC_KEY`). Without
//! the key nothing is fetched and the Outcome says why, so an absence is never
//! mistaken for zero attention. The key only ever goes into the URL actually
//! fetched, never into a Metric's source or an error text built here.

use vstd::prelude::*;

use crate::identity::{Identity, IdentityView, PaperId};
use crate::model::{
    cumulative, cumulative_metric, metric_seq_view, opt_view, push_metric, real_metric_value, real_value, Category,
    Metric, MetricValue, MetricView, Outcome, OutcomeView, Real, Timestamp, ValueView,
};
use crate::provider::{KeyRequirement, Provider};
use crate::providers::{request_view, requested, settle, settled};
use crate::text::{concat2, owned, push_str};
use crate::transport::{fetched_view, HttpResponse, Transport, TransportError};

verus! {

/// Shown as the `NotApplicable` note whenever no key is set.
pub open spec fn no_key_note() -> Seq<char> {
    "Altmetric attention data not collected: no Details Page API key (ALTMETRIC_KEY)"@
}

pub struct Altmetric {
    key: Option<String>,
}

impl View for Altmetric {
    type V = Option<Seq<char>>;

    closed spec fn view(&self) -> Option<Seq<char>> {
        opt_view(self.key)
    }
}

pub open spec fn supports_spec(id: IdentityView) -> bool {
    id is Doi || id is Pmid
}

/// The public Details Page URL for a paper (never carries the key).
pub open spec fn public_spec(id: IdentityView) -> Option<Seq<char>> {
    match id {
        IdentityView::Doi(d) => Some("https://api.altmetric.com/v1/fetch/doi/"@ + d),
        IdentityView::Pmid(p) => Some("https://api.altmetric.com/v1/fetch/pmid/"@ + p),
        _ => None,
    }
}

/// The URL to fetch and the public URL, or the Outcome when there is no
/// paper or no key.
pub open spec fn request_spec(key: Option<Seq<char>>, id: IdentityView) -> Result<(Seq<char>, Seq<char>), OutcomeView> {
    match public_spec(id) {
        None => Err(OutcomeView::NotApplicable("Altmetric requires a paper (DOI or PubMed ID)"@)),
        Some(public) => match key {
            None => Err(OutcomeView::NotApplicable(no_key_note())),
            Some(k) => Ok((public + "?key="@ + k, public)),
        },
    }
}

/// A 403: the key was refused.
pub open spec fn key_rejected() -> Seq<char> {
    "Altmetric API key rejected (403); check ALTMETRIC_KEY"@
}

/// Altmetric's first decision on a reply: a 403 is a rejected key; any
/// other reply is settled as for every Provider.
pub open spec fn altmetric_settled(f: Result<crate::transport::HttpResponseView, crate::transport::TransportErrorView>) -> Result<crate::transport::HttpResponseView, OutcomeView> {
    match f {
        Ok(resp) if resp.status == 403 => Err(OutcomeView::Failed(key_rejected())),
        _ => settled(f, "Altmetric"@, "not found in Altmetric"@),
    }
}

/// The fields of an Altmetric reply.
pub struct AltmetricResponse {
    pub score: Option<Real>,
    pub details_url: Option<String>,
    pub cited_by_msm_count: Option<u64>,
    pub cited_by_feeds_count: Option<u64>,
    pub cited_by_policies_count: Option<u64>,
    pub cited_by_patents_count: Option<u64>,
    pub cited_by_tweeters_count: Option<u64>,
    /// `readers.mendeley`.
    pub mendeley_readers: Option<u64>,
}

pub open spec fn score_note() -> Seq<char> {
    "Altmetric Attention Score; a weighted count of attention, not a percentile"@
}

pub open spec fn social_note() -> Seq<char> {
    "X/Twitter mentions tracked by Altmetric; other social sources not included"@
}

pub open spec fn count_step(ms: Seq<MetricView>, c: Option<u64>, name: Seq<char>, note: Option<Seq<char>>, src: Seq<char>, canonical: Seq<char>, as_of: Timestamp) -> Seq<MetricView> {
    match c {
        Some(n) => ms.push(cumulative(name, Category::Attention, ValueView::Count(n), "altmetric"@, canonical, as_of, src, note)),
        None => ms,
    }
}

/// Attribution: Altmetric's own public details page when the reply carries
/// one, else the public URL.
pub open spec fn attribution(f: AltmetricResponse, public_url: Seq<char>) -> Seq<char> {
    match f.details_url {
        Some(d) => d@,
        None => public_url,
    }
}

pub open spec fn altmetric_metrics(f: AltmetricResponse, public_url: Seq<char>, canonical: Seq<char>, as_of: Timestamp) -> Seq<MetricView> {
    let src = attribution(f, public_url);
    let m0 = match f.score {
        Some(r) => seq![cumulative("attention_score"@, Category::Attention, real_value(r), "altmetric"@, canonical, as_of, src, Some(score_note()))],
        None => seq![],
    };
    let m1 = count_step(m0, f.cited_by_msm_count, "news_mentions"@, None, src, canonical, as_of);
    let m2 = count_step(m1, f.cited_by_feeds_count, "blog_mentions"@, None, src, canonical, as_of);
    let m3 = count_step(m2, f.cited_by_policies_count, "policy_mentions"@, None, src, canonical, as_of);
    let m4 = count_step(m3, f.cited_by_patents_count, "patent_mentions"@, None, src, canonical, as_of);
    let m5 = count_step(m4, f.cited_by_tweeters_count, "social_mentions"@, Some(social_note()), src, canonical, as_of);
    count_step(m5, f.mendeley_readers, "mendeley_readers"@, None, src, canonical, as_of)
}

/// A reply with none of the known fields is `Failed`: Altmetric only keeps a
/// record once it has seen a mention, so an empty one is far more likely a
/// changed reply shape than a confirmed zero.
pub open spec fn classify_spec(f: AltmetricResponse, public_url: Seq<char>, canonical: Seq<char>, as_of: Timestamp) -> OutcomeView {
    let ms = altmetric_metrics(f, public_url, canonical, as_of);
    if ms.len() == 0 {
        OutcomeView::Failed("Altmetric response missing all expected fields (not a confirmed zero)"@)
    } else {
        OutcomeView::Values(ms, None)
    }
}

fn push_count(ms: &mut Vec<Metric>, c: Option<u64>, name: &str, note: Option<&str>, src: &str, canonical: &str, as_of: Timestamp)
    ensures
        metric_seq_view(final(ms)@) == count_step(metric_seq_view(old(ms)@), c, name@, crate::model::str_opt(note), src@, canonical@, as_of),
{
    if let Some(n) = c {
        push_metric(ms, cumulative_metric(name, Category::Attention, MetricValue::Count(n), "altmetric", canonical, as_of, src, note));
    }
}

impl Altmetric {
    /// An Altmetric Provider using `key`; an empty key counts as none.
    pub fn with_key(key: Option<String>) -> (r: Altmetric)
        ensures
            r@ == match key {
                Some(k) => if k@.len() == 0 { None } else { Some(k@) },
                None => None,
            },
    {
        let key = match key {
            Some(k) => if k.as_str().is_empty() { None } else { Some(k) },
            None => None,
        };
        Altmetric { key }
    }

    pub fn has_key(&self) -> (r: bool)
        ensures
            r == (self@ is Some),
    {
        self.key.is_some()
    }

    /// The URL to fetch (carrying the key) and the public URL to attribute,
    /// or the Outcome when there is no paper or no key: without a key no
    /// request is made at all.
    pub fn request_urls(&self, identity: &Identity) -> (r: Result<(String, String), Outcome>)
        ensures
            match (r, request_spec(self@, identity@)) {
                (Ok((f, p)), Ok((fv, pv))) => f@ == fv && p@ == pv,
                (Err(o), Err(v)) => o@ == v,
                _ => false,
            },
    {
        let public = match identity {
            Identity::Paper(PaperId::Doi(d)) => concat2("https://api.altmetric.com/v1/fetch/doi/", d.as_str()),
            Identity::Paper(PaperId::Pmid(p)) => concat2("https://api.altmetric.com/v1/fetch/pmid/", p.as_str()),
            _ => {
                return Err(Outcome::NotApplicable { note: owned("Altmetric requires a paper (DOI or PubMed ID)") });
            },
        };
        match &self.key {
            None => Err(Outcome::NotApplicable {
                note: owned("Altmetric attention data not collected: no Details Page API key (ALTMETRIC_KEY)"),
            }),
            Some(k) => {
                let mut fetch = public.clone();
                push_str(&mut fetch, "?key=");
                push_str(&mut fetch, k.as_str());
                Ok((fetch, public))
            },
        }
    }

    /// The first decision on Altmetric's reply: 403 means the key was
    /// rejected; other statuses are classified as for every Provider.
    pub fn settle_reply(fetched: Result<HttpResponse, TransportError>) -> (r: Result<HttpResponse, Outcome>)
        ensures
            match fetched_view(fetched) {
                Ok(resp) if resp.status == 403 => r is Err && r->Err_0@ == OutcomeView::Failed(key_rejected()),
                _ => match (r, settled(fetched_view(fetched), "Altmetric"@, "not found in Altmetric"@)) {
                    (Ok(resp), Ok(v)) => resp@ == v,
                    (Err(o), Err(v)) => o@ == v,
                    _ => false,
                },
            },
    {
        if let Ok(resp) = &fetched {
            if resp.status == 403 {
                return Err(Outcome::Failed { error: owned("Altmetric API key rejected (403); check ALTMETRIC_KEY") });
            }
        }
        settle(fetched, "Altmetric", "not found in Altmetric")
    }

    /// Requests `identity`'s record through `transport` with the key: the
    /// public URL (the record's source) and the 200 reply to read, or the
    /// Outcome already decided. Without a key, or for an Identity that is not
    /// a paper, no request is made.
    pub fn request<T: Transport>(&self, identity: &Identity, transport: &mut T) -> (r: Result<(String, HttpResponse), Outcome>)
        ensures
            match request_spec(self@, identity@) {
                Err(v) => r is Err && r->Err_0@ == v && *final(transport) == *old(transport),
                Ok((fu, p)) => exists|f: Result<crate::transport::HttpResponseView, crate::transport::TransportErrorView>|
                    #![trigger old(transport).replies(final(transport), fu, Seq::empty(), f)]
                    old(transport).replies(final(transport), fu, Seq::empty(), f)
                        && requested(altmetric_settled(f), p) == request_view(r),
            },
    {
        let (fetch, public) = match self.request_urls(identity) {
            Ok(urls) => urls,
            Err(o) => return Err(o),
        };
        let ghost p = public@;
        let fetched = transport.get(fetch.as_str());
        let ghost fv = fetched_view(fetched);
        let r = match Altmetric::settle_reply(fetched) {
            Ok(resp) => Ok((public, resp)),
            Err(o) => Err(o),
        };
        proof {
            assert(requested(altmetric_settled(fv), p) == request_view(r));
        }
        r
    }

    /// The Outcome for a 200 body that could not be read.
    pub fn malformed(reason: &str) -> (o: Outcome)
        ensures
            o@ == OutcomeView::Failed("unexpected Altmetric response: "@ + reason@),
    {
        Outcome::Failed { error: concat2("unexpected Altmetric response: ", reason) }
    }

    /// The Outcome for a readable reply: one Metric per known field present,
    /// attributed to Altmetric's public page; `Failed` when none is present.
    pub fn classify(f: &AltmetricResponse, public_url: &str, canonical: &str, as_of: Timestamp) -> (o: Outcome)
        ensures
            o@ == classify_spec(*f, public_url@, canonical@, as_of),
    {
        let src: &str = match &f.details_url {
            Some(d) => d.as_str(),
            None => public_url,
        };
        let mut ms: Vec<Metric> = Vec::new();
        assert(metric_seq_view(ms@) =~= seq![]);
        if let Some(r) = &f.score {
            push_metric(&mut ms, cumulative_metric(
                "attention_score", Category::Attention, real_metric_value(r), "altmetric", canonical, as_of, src,
                Some("Altmetric Attention Score; a weighted count of attention, not a percentile"),
            ));
        }
        push_count(&mut ms, f.cited_by_msm_count, "news_mentions", None, src, canonical, as_of);
        push_count(&mut ms, f.cited_by_feeds_count, "blog_mentions", None, src, canonical, as_of);
        push_count(&mut ms, f.cited_by_policies_count, "policy_mentions", None, src, canonical, as_of);
        push_count(&mut ms, f.cited_by_patents_count, "patent_mentions", None, src, canonical, as_of);
        push_count(
            &mut ms, f.cited_by_tweeters_count, "social_mentions",
            Some("X/Twitter mentions tracked by Altmetric; other social sources not included"), src, canonical, as_of,
        );
        push_count(&mut ms, f.mendeley_readers, "mendeley_readers", None, src, canonical, as_of);
        if ms.len() == 0 {
            Outcome::Failed { error: owned("Altmetric response missing all expected fields (not a confirmed zero)") }
        } else {
            crate::model::values_of(ms)
        }
    }
}

impl Provider for Altmetric {
    fn name(&self) -> (r: &'static str)
        ensures
            r@ == "altmetric"@,
    {
        "altmetric"
    }

    fn category(&self) -> (r: Category)
        ensures
            r == Category::Attention,
    {
        Category::Attention
    }

    fn supports(&self, identity: &Identity) -> (r: bool)
        ensures
            r == supports_spec(identity@),
    {
        match identity {
            Identity::Paper(_) => true,
            _ => false,
        }
    }

    /// Required whether or not a key is set.
    fn key_requirement(&self) -> (r: KeyRequirement)
        ensures
            r matches KeyRequirement::Required { env_var } && env_var@ == "ALTMETRIC_KEY"@,
    {
        KeyRequirement::Required { env_var: "ALTMETRIC_KEY" }
    }
}

} // verus!

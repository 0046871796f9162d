//! Homebrew Provider: a formula's install counts over Homebrew's 30-, 90- and
//! 365-day analytics windows.

use vstd::prelude::*;

use crate::identity::{Identity, IdentityView, Registry};
use crate::model::{
    metric_seq_view, push_metric, windowed, windowed_metric, Category, Metric, MetricValue, MetricView, Outcome,
    OutcomeView, Timestamp, ValueView, Window, WindowView,
};
use crate::provider::Provider;
use crate::providers::{request_view, requested, settle, settled};
use crate::text::{concat2, owned, push_str, str_eq};
use crate::transport::{fetched_view, HttpResponse, Transport, TransportError};

verus! {

pub struct Homebrew;

pub open spec fn supports_spec(id: IdentityView) -> bool {
    id matches IdentityView::Package(r, _) && r == Registry::Homebrew
}

pub open spec fn request_spec(id: IdentityView) -> Result<Seq<char>, OutcomeView> {
    match id {
        IdentityView::Package(r, name) if r == Registry::Homebrew => Ok("https://formulae.brew.sh/api/formula/"@ + name + ".json"@),
        _ => Err(OutcomeView::NotApplicable("Homebrew only supports homebrew packages"@)),
    }
}

/// A formula's install analytics: for each period key (`30d`, ...), the
/// install count of each formula name.
pub struct BrewAnalytics {
    pub install: Vec<(String, Vec<(String, u64)>)>,
}

pub struct BrewFormula {
    pub analytics: Option<BrewAnalytics>,
}

/// No key occurs twice among `ps`.
pub open spec fn keys_distinct<V>(ps: Seq<(Seq<char>, V)>) -> bool {
    forall|i: int, j: int| 0 <= i < j < ps.len() ==> (#[trigger] ps[i]).0 != (#[trigger] ps[j]).0
}

impl BrewAnalytics {
    /// As in Homebrew's JSON objects: each period at most once, and within a
    /// period each formula name at most once.
    pub open spec fn well_formed(&self) -> bool {
        &&& keys_distinct(install_view(self.install@))
        &&& forall|k: int| 0 <= k < self.install@.len() ==> keys_distinct(counts_view((#[trigger] self.install@[k]).1@))
    }

    /// Whether no period, and no formula name within a period, repeats.
    pub fn is_well_formed(&self) -> (r: bool)
        ensures
            r == self.well_formed(),
    {
        let mut periods: Vec<&str> = Vec::new();
        let mut k: usize = 0;
        while k < self.install.len()
            invariant
                k <= self.install.len(),
                periods@.len() == k,
                forall|t: int| 0 <= t < k ==> (#[trigger] periods@[t])@ == self.install@[t].0@,
                forall|t: int| 0 <= t < k ==> keys_distinct(counts_view((#[trigger] self.install@[t]).1@)),
            decreases self.install.len() - k,
        {
            let counts = &self.install[k].1;
            let mut names: Vec<&str> = Vec::new();
            let mut t: usize = 0;
            while t < counts.len()
                invariant
                    t <= counts.len(),
                    names@.len() == t,
                    forall|u: int| 0 <= u < t ==> (#[trigger] names@[u])@ == counts@[u].0@,
                decreases counts.len() - t,
            {
                names.push(counts[t].0.as_str());
                t = t + 1;
            }
            if !distinct_texts(&names) {
                proof {
                    let cv = counts_view(counts@);
                    let (i, j) = choose|i: int, j: int| 0 <= i < j < names@.len() && names@[i]@ == names@[j]@;
                    assert(cv[i].0 == cv[j].0);
                }
                return false;
            }
            proof {
                let cv = counts_view(counts@);
                assert forall|i: int, j: int| 0 <= i < j < cv.len() implies (#[trigger] cv[i]).0 != (#[trigger] cv[j]).0 by {
                    assert(names@[i]@ != names@[j]@);
                }
            }
            periods.push(self.install[k].0.as_str());
            k = k + 1;
        }
        let ok = distinct_texts(&periods);
        proof {
            let iv = install_view(self.install@);
            if ok {
                assert forall|i: int, j: int| 0 <= i < j < iv.len() implies (#[trigger] iv[i]).0 != (#[trigger] iv[j]).0 by {
                    assert(periods@[i]@ != periods@[j]@);
                }
            } else {
                let (i, j) = choose|i: int, j: int| 0 <= i < j < periods@.len() && periods@[i]@ == periods@[j]@;
                assert(iv[i].0 == iv[j].0);
            }
        }
        ok
    }
}

/// Whether no two of `ks` are the same text.
fn distinct_texts(ks: &Vec<&str>) -> (r: bool)
    ensures
        r == (forall|i: int, j: int| 0 <= i < j < ks@.len() ==> (#[trigger] ks@[i])@ != (#[trigger] ks@[j])@),
{
    let mut j: usize = 0;
    while j < ks.len()
        invariant
            j <= ks.len(),
            forall|a: int, b: int| 0 <= a < b < j ==> (#[trigger] ks@[a])@ != (#[trigger] ks@[b])@,
        decreases ks.len() - j,
    {
        let mut i: usize = 0;
        while i < j
            invariant
                i <= j < ks.len(),
                forall|a: int| 0 <= a < i ==> (#[trigger] ks@[a])@ != ks@[j as int]@,
            decreases j - i,
        {
            if str_eq(ks[i], ks[j]) {
                return false;
            }
            i = i + 1;
        }
        j = j + 1;
    }
    true
}

pub open spec fn counts_view(v: Seq<(String, u64)>) -> Seq<(Seq<char>, u64)> {
    v.map_values(|p: (String, u64)| (p.0@, p.1))
}

pub open spec fn install_view(v: Seq<(String, Vec<(String, u64)>)>) -> Seq<(Seq<char>, Seq<(Seq<char>, u64)>)> {
    v.map_values(|p: (String, Vec<(String, u64)>)| (p.0@, counts_view(p.1@)))
}

/// The value of the first entry named `key`.
pub open spec fn first_key<V>(ps: Seq<(Seq<char>, V)>, key: Seq<char>) -> Option<V>
    decreases ps.len(),
{
    if ps.len() == 0 {
        None
    } else if ps[0].0 == key {
        Some(ps[0].1)
    } else {
        first_key(ps.drop_first(), key)
    }
}

pub open spec fn installs(install: Seq<(Seq<char>, Seq<(Seq<char>, u64)>)>, period: Seq<char>, name: Seq<char>) -> Option<u64> {
    match first_key(install, period) {
        Some(per_name) => first_key(per_name, name),
        None => None,
    }
}

pub open spec fn period_metric(period: Seq<char>, days: u32, n: u64, url: Seq<char>, canonical: Seq<char>, as_of: Timestamp) -> MetricView {
    windowed("downloads_"@ + period, Category::Downloads, ValueView::Count(n), WindowView::Trailing(days), "homebrew"@, canonical, as_of, url, None)
}

pub open spec fn with_period(
    ms: Seq<MetricView>,
    install: Seq<(Seq<char>, Seq<(Seq<char>, u64)>)>,
    period: Seq<char>,
    days: u32,
    name: Seq<char>,
    url: Seq<char>,
    canonical: Seq<char>,
    as_of: Timestamp,
) -> Seq<MetricView> {
    match installs(install, period, name) {
        Some(n) => ms.push(period_metric(period, days, n, url, canonical, as_of)),
        None => ms,
    }
}

pub open spec fn brew_metrics(install: Seq<(Seq<char>, Seq<(Seq<char>, u64)>)>, name: Seq<char>, url: Seq<char>, canonical: Seq<char>, as_of: Timestamp) -> Seq<MetricView> {
    let m30 = with_period(seq![], install, "30d"@, 30, name, url, canonical, as_of);
    let m90 = with_period(m30, install, "90d"@, 90, name, url, canonical, as_of);
    with_period(m90, install, "365d"@, 365, name, url, canonical, as_of)
}

pub open spec fn no_analytics() -> Seq<char> {
    "Homebrew has no install analytics for this formula"@
}

pub open spec fn classify_spec(f: BrewFormula, url: Seq<char>, canonical: Seq<char>, as_of: Timestamp, name: Seq<char>) -> OutcomeView {
    match f.analytics {
        None => OutcomeView::NotApplicable(no_analytics()),
        Some(a) => {
            let ms = brew_metrics(install_view(a.install@), name, url, canonical, as_of);
            if ms.len() == 0 {
                OutcomeView::NotApplicable(no_analytics())
            } else {
                OutcomeView::Values(ms, None)
            }
        },
    }
}

fn count_for(per_name: &Vec<(String, u64)>, name: &str) -> (r: Option<u64>)
    ensures
        r == first_key(counts_view(per_name@), name@),
{
    let ghost all = counts_view(per_name@);
    let mut i: usize = 0;
    assert(all.skip(0) =~= all);
    while i < per_name.len()
        invariant
            i <= per_name.len(),
            all == counts_view(per_name@),
            first_key(all, name@) == first_key(all.skip(i as int), name@),
        decreases per_name.len() - i,
    {
        assert(all.skip(i as int).drop_first() =~= all.skip(i + 1));
        if str_eq(per_name[i].0.as_str(), name) {
            return Some(per_name[i].1);
        }
        i = i + 1;
    }
    None
}

fn installs_for(install: &Vec<(String, Vec<(String, u64)>)>, period: &str, name: &str) -> (r: Option<u64>)
    ensures
        r == installs(install_view(install@), period@, name@),
{
    let ghost all = install_view(install@);
    let mut i: usize = 0;
    assert(all.skip(0) =~= all);
    while i < install.len()
        invariant
            i <= install.len(),
            all == install_view(install@),
            first_key(all, period@) == first_key(all.skip(i as int), period@),
        decreases install.len() - i,
    {
        assert(all.skip(i as int).drop_first() =~= all.skip(i + 1));
        if str_eq(install[i].0.as_str(), period) {
            return count_for(&install[i].1, name);
        }
        i = i + 1;
    }
    None
}

fn push_period(
    ms: &mut Vec<Metric>,
    install: &Vec<(String, Vec<(String, u64)>)>,
    period: &str,
    days: u32,
    name: &str,
    url: &str,
    canonical: &str,
    as_of: Timestamp,
)
    ensures
        metric_seq_view(final(ms)@) == with_period(metric_seq_view(old(ms)@), install_view(install@), period@, days, name@, url@, canonical@, as_of),
{
    if let Some(n) = installs_for(install, period, name) {
        let metric_name = concat2("downloads_", period);
        let m = windowed_metric(
            metric_name.as_str(),
            Category::Downloads,
            MetricValue::Count(n),
            Window::Trailing { days },
            "homebrew",
            canonical,
            as_of,
            url,
            None,
        );
        push_metric(ms, m);
    }
}

impl Homebrew {
    /// The URL to fetch for `identity`, or the Outcome when Homebrew cannot
    /// answer for it.
    pub fn request_url(identity: &Identity) -> (r: Result<String, Outcome>)
        ensures
            match (r, request_spec(identity@)) {
                (Ok(u), Ok(v)) => u@ == v,
                (Err(o), Err(v)) => o@ == v,
                _ => false,
            },
    {
        match identity {
            Identity::Package(p) => {
                if p.registry == Registry::Homebrew {
                    let mut u = owned("https://formulae.brew.sh/api/formula/");
                    push_str(&mut u, p.name.as_str());
                    push_str(&mut u, ".json");
                    Ok(u)
                } else {
                    Err(Outcome::NotApplicable { note: owned("Homebrew only supports homebrew packages") })
                }
            },
            _ => Err(Outcome::NotApplicable { note: owned("Homebrew only supports homebrew packages") }),
        }
    }

    /// The first decision on Homebrew's reply.
    pub fn settle_reply(fetched: Result<HttpResponse, TransportError>) -> (r: Result<HttpResponse, Outcome>)
        ensures
            match (r, settled(fetched_view(fetched), "Homebrew"@, "not found on Homebrew"@)) {
                (Ok(resp), Ok(v)) => resp@ == v,
                (Err(o), Err(v)) => o@ == v,
                _ => false,
            },
    {
        settle(fetched, "Homebrew", "not found on Homebrew")
    }

    /// Requests `identity`'s record through `transport`: its URL and the 200
    /// reply to read, or the Outcome already decided. No request is made for
    /// an Identity Homebrew cannot answer.
    pub fn request<T: Transport>(identity: &Identity, transport: &mut T) -> (r: Result<(String, HttpResponse), Outcome>)
        ensures
            match request_spec(identity@) {
                Err(v) => r is Err && r->Err_0@ == v && *final(transport) == *old(transport),
                Ok(u) => exists|f: Result<crate::transport::HttpResponseView, crate::transport::TransportErrorView>|
                    #![trigger old(transport).replies(final(transport), u, Seq::empty(), f)]
                    old(transport).replies(final(transport), u, Seq::empty(), f)
                        && requested(settled(f, "Homebrew"@, "not found on Homebrew"@), u) == request_view(r),
            },
    {
        let url = match Homebrew::request_url(identity) {
            Ok(u) => u,
            Err(o) => return Err(o),
        };
        let ghost u = url@;
        let fetched = transport.get(url.as_str());
        let ghost fv = fetched_view(fetched);
        let r = match Homebrew::settle_reply(fetched) {
            Ok(resp) => Ok((url, resp)),
            Err(o) => Err(o),
        };
        proof {
            assert(requested(settled(fv, "Homebrew"@, "not found on Homebrew"@), u) == request_view(r));
        }
        r
    }

    /// The Outcome for a 200 body that could not be read.
    pub fn malformed(reason: &str) -> (o: Outcome)
        ensures
            o@ == OutcomeView::Failed("unexpected Homebrew response: "@ + reason@),
    {
        Outcome::Failed { error: concat2("unexpected Homebrew response: ", reason) }
    }

    /// The Outcome for a readable reply: one Metric per analytics window in
    /// which formula `name` has a count, or `NotApplicable` when none has.
    pub fn classify(f: &BrewFormula, url: &str, canonical: &str, as_of: Timestamp, name: &str) -> (o: Outcome)
        requires
            f.analytics matches Some(a) ==> a.well_formed(),
        ensures
            o@ == classify_spec(*f, url@, canonical@, as_of, name@),
    {
        match &f.analytics {
            None => Outcome::NotApplicable { note: owned("Homebrew has no install analytics for this formula") },
            Some(a) => {
                let mut ms: Vec<Metric> = Vec::new();
                assert(metric_seq_view(ms@) =~= seq![]);
                push_period(&mut ms, &a.install, "30d", 30, name, url, canonical, as_of);
                push_period(&mut ms, &a.install, "90d", 90, name, url, canonical, as_of);
                push_period(&mut ms, &a.install, "365d", 365, name, url, canonical, as_of);
                if ms.len() == 0 {
                    Outcome::NotApplicable { note: owned("Homebrew has no install analytics for this formula") }
                } else {
                    crate::model::values_of(ms)
                }
            },
        }
    }
}

impl Provider for Homebrew {
    fn name(&self) -> (r: &'static str)
        ensures
            r@ == "homebrew"@,
    {
        "homebrew"
    }

    fn category(&self) -> (r: Category)
        ensures
            r == Category::Downloads,
    {
        Category::Downloads
    }

    fn supports(&self, identity: &Identity) -> (r: bool)
        ensures
            r == supports_spec(identity@),
    {
        match identity {
            Identity::Package(p) => p.registry == Registry::Homebrew,
            _ => false,
        }
    }
}

} // verus!

verus! {

/// The analytics period a Metric name stands for, in days: `downloads_30d`,
/// `downloads_90d` and `downloads_365d`.
pub open spec fn period_days(metric_name: Seq<char>) -> Option<u32> {
    if metric_name == "downloads_30d"@ {
        Some(30)
    } else if metric_name == "downloads_90d"@ {
        Some(90)
    } else if metric_name == "downloads_365d"@ {
        Some(365)
    } else {
        None
    }
}

/// Every Homebrew Metric covers the window its name says: `downloads_<N>d`
/// counts the installs of the `<N>d` period over the trailing `N` days, and
/// its value is that period's count for the formula; every period with a
/// count for the formula gives one.
pub proof fn law_homebrew_window_matches_its_period(
    install: Seq<(Seq<char>, Seq<(Seq<char>, u64)>)>,
    name: Seq<char>,
    url: Seq<char>,
    canonical: Seq<char>,
    as_of: Timestamp,
)
    ensures
        forall|k: int| 0 <= k < brew_metrics(install, name, url, canonical, as_of).len() ==> {
            let m = #[trigger] brew_metrics(install, name, url, canonical, as_of)[k];
            &&& period_days(m.name) is Some
            &&& m.window == WindowView::Trailing(period_days(m.name)->Some_0)
            &&& m.category == Category::Downloads
            &&& m.value == ValueView::Count(installs(install, m.name.subrange(10, m.name.len() as int), name)->Some_0)
            &&& installs(install, m.name.subrange(10, m.name.len() as int), name) is Some
        },
        forall|period: Seq<char>|
            (period == "30d"@ || period == "90d"@ || period == "365d"@) && #[trigger] installs(install, period, name) is Some
                ==> exists|k: int| 0 <= k < brew_metrics(install, name, url, canonical, as_of).len()
                && #[trigger] brew_metrics(install, name, url, canonical, as_of)[k].name == "downloads_"@ + period,
{
    reveal_strlit("downloads_");
    reveal_strlit("30d");
    reveal_strlit("90d");
    reveal_strlit("365d");
    reveal_strlit("downloads_30d");
    reveal_strlit("downloads_90d");
    reveal_strlit("downloads_365d");
    let ms = brew_metrics(install, name, url, canonical, as_of);
    let m30 = with_period(seq![], install, "30d"@, 30, name, url, canonical, as_of);
    let m90 = with_period(m30, install, "90d"@, 90, name, url, canonical, as_of);
    assert(("downloads_"@ + "30d"@) =~= "downloads_30d"@);
    assert(("downloads_"@ + "90d"@) =~= "downloads_90d"@);
    assert(("downloads_"@ + "365d"@) =~= "downloads_365d"@);
    assert("downloads_30d"@.subrange(10, 13) =~= "30d"@);
    assert("downloads_90d"@.subrange(10, 13) =~= "90d"@);
    assert("downloads_365d"@.subrange(10, 14) =~= "365d"@);
    assert("downloads_90d"@ != "downloads_30d"@) by {
        assert("downloads_90d"@[10] != "downloads_30d"@[10]);
    }
    assert("downloads_365d"@ != "downloads_30d"@) by {
        assert("downloads_365d"@.len() != "downloads_30d"@.len());
    }
    assert("downloads_365d"@ != "downloads_90d"@) by {
        assert("downloads_365d"@.len() != "downloads_90d"@.len());
    }
    assert forall|k: int| 0 <= k < ms.len() implies {
        let m = #[trigger] ms[k];
        &&& period_days(m.name) is Some
        &&& m.window == WindowView::Trailing(period_days(m.name)->Some_0)
        &&& m.category == Category::Downloads
        &&& m.value == ValueView::Count(installs(install, m.name.subrange(10, m.name.len() as int), name)->Some_0)
        &&& installs(install, m.name.subrange(10, m.name.len() as int), name) is Some
    } by {
        if k < m30.len() {
            assert(m90[k] == m30[k]);
            assert(ms[k] == m90[k]);
        } else if k < m90.len() {
            assert(ms[k] == m90[k]);
        }
    }
    assert forall|period: Seq<char>|
        (period == "30d"@ || period == "90d"@ || period == "365d"@) && #[trigger] installs(install, period, name) is Some
            implies exists|k: int| 0 <= k < ms.len() && #[trigger] ms[k].name == "downloads_"@ + period by {
        if period == "30d"@ {
            assert(ms[0].name == "downloads_"@ + period);
        } else if period == "90d"@ {
            assert(ms[m30.len() as int].name == "downloads_"@ + period);
        } else {
            assert(ms[m90.len() as int].name == "downloads_"@ + period);
        }
    }
}

/// What Homebrew's classification reports is what its Metrics name: every
/// reported Metric `downloads_<N>d` covers the trailing `N` days and holds
/// the formula's count for the `<N>d` period; with no analytics, or no count
/// in any period, it reports `NotApplicable`, never a zero.
pub proof fn law_homebrew_reports_each_period_over_its_window(
    f: BrewFormula,
    url: Seq<char>,
    canonical: Seq<char>,
    as_of: Timestamp,
    name: Seq<char>,
)
    ensures
        classify_spec(f, url, canonical, as_of, name) matches OutcomeView::Values(ms, _) ==> f.analytics is Some && forall|k: int|
            0 <= k < ms.len() ==> {
                let m = #[trigger] ms[k];
                &&& period_days(m.name) is Some
                &&& m.window == WindowView::Trailing(period_days(m.name)->Some_0)
                &&& m.value == ValueView::Count(
                    installs(install_view(f.analytics->Some_0.install@), m.name.subrange(10, m.name.len() as int), name)->Some_0,
                )
            },
        f.analytics is None ==> classify_spec(f, url, canonical, as_of, name) == OutcomeView::NotApplicable(no_analytics()),
{
    if let Some(a) = f.analytics {
        law_homebrew_window_matches_its_period(install_view(a.install@), name, url, canonical, as_of);
    }
}

} // verus!

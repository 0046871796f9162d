//! GitHub repository Provider: Code-Category reach for a repository — stars,
//! forks, watchers, repository age, contributors and total release-asset
//! downloads. A token, when given, raises the API rate limit.

use vstd::prelude::*;

use crate::identity::{Identity, IdentityView, RepoId};
use crate::clock::{in_time_range, parse_rfc3339, rfc3339_moment};
use crate::model::{
    cumulative, cumulative_metric, metric_seq_view, opt_view, push_metric, real_metric_value, real_value, Category,
    Metric, MetricValue, MetricView, Outcome, OutcomeView, Real, Timestamp, ValueView,
};
use crate::provider::{KeyRequirement, Provider};
use crate::text::{
    chars_of, concat2, contains, contains_exec, dec, find, find_exec, is_digit, leading_digits, lemma_map_push,
    lemma_take_push, owned, parse_digit_run, parse_digits, push_str, slice_chars, string_of,
};
use crate::providers::{request_view, requested};
use crate::transport::{fetched_view, header_pair_views, transport_error_text, transient_status, HttpResponse, Transport, TransportError};

verus! {

pub struct GitHub {
    token: Option<String>,
}

impl View for GitHub {
    type V = Option<Seq<char>>;

    closed spec fn view(&self) -> Option<Seq<char>> {
        opt_view(self.token)
    }
}

pub open spec fn supports_spec(id: IdentityView) -> bool {
    id is Repo
}

pub open spec fn repo_url_spec(owner: Seq<char>, name: Seq<char>) -> Seq<char> {
    "https://api.github.com/repos/"@ + owner + "/"@ + name
}

pub open spec fn request_spec(id: IdentityView) -> Result<Seq<char>, OutcomeView> {
    match id {
        IdentityView::Repo(_, owner, name) => Ok(repo_url_spec(owner, name)),
        _ => Err(OutcomeView::NotApplicable("GitHub requires a repository"@)),
    }
}

pub open spec fn header_views(hs: Seq<(String, String)>) -> Seq<(Seq<char>, Seq<char>)> {
    hs.map_values(|p: (String, String)| (p.0@, p.1@))
}

pub open spec fn headers_spec(token: Option<Seq<char>>) -> Seq<(Seq<char>, Seq<char>)> {
    let base = seq![("Accept"@, "application/vnd.github+json"@), ("X-GitHub-Api-Version"@, "2022-11-28"@)];
    match token {
        Some(t) => base.push(("Authorization"@, "Bearer "@ + t)),
        None => base,
    }
}

/// How GitHub's reply to the repository lookup is decided: 403 means the
/// rate limit or an access denial, which a token can lift.
pub open spec fn core_settled(fetched: Result<crate::transport::HttpResponseView, crate::transport::TransportErrorView>) -> Result<crate::transport::HttpResponseView, OutcomeView> {
    match fetched {
        Err(e) => Err(OutcomeView::Failed(transport_error_text(e))),
        Ok(resp) => if resp.status == 200 {
            Ok(resp)
        } else if resp.status == 404 {
            Err(OutcomeView::NotApplicable("repository not found on GitHub"@))
        } else if resp.status == 403 {
            Err(OutcomeView::Failed("GitHub rate limit or access denied (403); set GITHUB_TOKEN"@))
        } else if resp.status == 429 {
            Err(OutcomeView::Failed("rate limited by GitHub (429)"@))
        } else if 500 <= resp.status && resp.status < 600 {
            Err(OutcomeView::Failed("GitHub server error ("@ + dec(resp.status as nat) + ")"@))
        } else {
            Err(OutcomeView::Failed("unexpected GitHub status ("@ + dec(resp.status as nat) + ")"@))
        },
    }
}

/// The position of the first `,` at or after `i` (the length when none).
pub open spec fn next_comma(s: Seq<char>, i: int) -> int
    decreases s.len() - i,
{
    if i >= s.len() {
        s.len() as int
    } else if s[i] == ',' {
        i
    } else {
        next_comma(s, i + 1)
    }
}

pub proof fn lemma_next_comma_bounds(s: Seq<char>, i: int)
    requires
        0 <= i <= s.len(),
    ensures
        i <= next_comma(s, i) <= s.len(),
    decreases s.len() - i,
{
    if i < s.len() && s[i] != ',' {
        lemma_next_comma_bounds(s, i + 1);
    }
}

/// In one Link entry: the page number after `&page=` (or, failing that,
/// `?page=`), so that `per_page=1` is never read as the page.
pub open spec fn page_in(part: Seq<char>) -> Option<Option<u64>> {
    match find(part, "&page="@) {
        Some(i) => Some(parse_digits(leading_digits(part.subrange(i + 6, part.len() as int)))),
        None => match find(part, "?page="@) {
            Some(i) => Some(parse_digits(leading_digits(part.subrange(i + 6, part.len() as int)))),
            None => None,
        },
    }
}

/// The `page` of the first comma-separated Link entry, from position
/// `start` on, that is marked `rel="last"` and carries a page parameter.
pub open spec fn last_page_from(s: Seq<char>, start: int) -> Option<u64>
    decreases s.len() + 1 - start,
{
    if start < 0 || start > s.len() {
        None
    } else {
        let end = next_comma(s, start);
        proof {
            lemma_next_comma_bounds(s, start);
        }
        let part = s.subrange(start, end);
        let found = if contains(part, "rel=\"last\""@) { page_in(part) } else { None };
        match found {
            Some(r) => r,
            None => if end >= s.len() { None } else { last_page_from(s, end + 1) },
        }
    }
}

pub open spec fn sum_all(xs: Seq<Vec<u64>>) -> nat
    decreases xs.len(),
{
    if xs.len() == 0 {
        0
    } else {
        sum_all(xs.drop_last()) + sum_row(xs.last()@)
    }
}

pub open spec fn sum_row(xs: Seq<u64>) -> nat
    decreases xs.len(),
{
    if xs.len() == 0 {
        0
    } else {
        sum_row(xs.drop_last()) + xs.last() as nat
    }
}

/// The fields of GitHub's repository record.
pub struct GhRepo {
    pub stargazers_count: Option<u64>,
    pub forks_count: Option<u64>,
    pub subscribers_count: Option<u64>,
}

/// A repository's age in years and its creation date (`YYYY-MM-DD`).
pub struct RepoAge {
    pub years: Real,
    pub since: String,
}

pub open spec fn code_step(ms: Seq<MetricView>, name: Seq<char>, v: Option<ValueView>, src: Seq<char>, note: Option<Seq<char>>, canonical: Seq<char>, as_of: Timestamp) -> Seq<MetricView> {
    match v {
        Some(x) => ms.push(cumulative(name, Category::Code, x, "github"@, canonical, as_of, src, note)),
        None => ms,
    }
}

pub open spec fn count_view(c: Option<u64>) -> Option<ValueView> {
    match c {
        Some(n) => Some(ValueView::Count(n)),
        None => None,
    }
}

pub open spec fn contributors_url_spec(base: Seq<char>) -> Seq<char> {
    base + "/contributors?per_page=1&anon=true"@
}

pub open spec fn releases_url_spec(base: Seq<char>) -> Seq<char> {
    base + "/releases?per_page=100"@
}

/// The Metrics of one repository: stars, forks, watchers and age from the
/// repository record, then contributors and release downloads from their own
/// calls; each only when present, never a made-up zero.
pub open spec fn repo_metrics(
    core: GhRepo,
    age: Option<RepoAge>,
    contributors: Option<u64>,
    release_downloads: Option<u64>,
    base: Seq<char>,
    canonical: Seq<char>,
    as_of: Timestamp,
) -> Seq<MetricView> {
    let m1 = code_step(seq![], "stars"@, count_view(core.stargazers_count), base, None, canonical, as_of);
    let m2 = code_step(m1, "forks"@, count_view(core.forks_count), base, None, canonical, as_of);
    let m3 = code_step(m2, "watchers"@, count_view(core.subscribers_count), base, Some("users watching the repo (subscribers)"@), canonical, as_of);
    let m4 = match age {
        Some(a) => m3.push(cumulative("repo_age_years"@, Category::Code, real_value(a.years), "github"@, canonical, as_of, base, Some("since "@ + a.since@))),
        None => m3,
    };
    let m5 = code_step(m4, "contributors"@, count_view(contributors), contributors_url_spec(base), None, canonical, as_of);
    code_step(m5, "release_downloads"@, count_view(release_downloads), releases_url_spec(base), Some("summed across release assets"@), canonical, as_of)
}

fn push_code(ms: &mut Vec<Metric>, name: &str, c: Option<u64>, src: &str, note: Option<&str>, canonical: &str, as_of: Timestamp)
    ensures
        metric_seq_view(final(ms)@) == code_step(metric_seq_view(old(ms)@), name@, count_view(c), src@, crate::model::str_opt(note), canonical@, as_of),
{
    if let Some(n) = c {
        push_metric(ms, cumulative_metric(name, Category::Code, MetricValue::Count(n), "github", canonical, as_of, src, note));
    }
}

/// Extracts the `page=N` value of the `rel="last"` entry of a Link header.
/// The `page` parameter must follow `?` or `&`, so `per_page=1` is never
/// read as the page.
pub fn parse_last_page(link: &str) -> (r: Option<u64>)
    ensures
        r == last_page_from(link@, 0),
{
    proof {
        reveal_strlit("&page=");
        reveal_strlit("?page=");
    }
    let v = chars_of(link);
    let rel_last = chars_of("rel=\"last\"");
    let amp = chars_of("&page=");
    let qm = chars_of("?page=");
    let mut start: usize = 0;
    while start <= v.len()
        invariant
            v@ == link@,
            rel_last@ == "rel=\"last\""@,
            amp@ == "&page="@,
            qm@ == "?page="@,
            start <= v.len() + 1,
            last_page_from(link@, 0) == last_page_from(link@, start as int),
        decreases v.len() + 1 - start,
    {
        let mut end = start;
        while end < v.len() && v[end] != ','
            invariant
                start <= end <= v.len(),
                next_comma(v@, start as int) == next_comma(v@, end as int),
            decreases v.len() - end,
        {
            end = end + 1;
        }
        let part = slice_chars(&v, start, end);
        if contains_exec(&part, &rel_last) {
            match find_exec(&part, &amp) {
                Some(i) => {
                    proof {
                        reveal_strlit("&page=");
                        crate::text::lemma_find_bounds(part@, amp@);
                        assert(amp@.len() == 6);
                    }
                    return parse_digit_run(&part, i + 6);
                },
                None => {},
            }
            match find_exec(&part, &qm) {
                Some(i) => {
                    proof {
                        reveal_strlit("?page=");
                        crate::text::lemma_find_bounds(part@, qm@);
                        assert(qm@.len() == 6);
                    }
                    return parse_digit_run(&part, i + 6);
                },
                None => {},
            }
        }
        if end >= v.len() {
            return None;
        }
        start = end + 1;
    }
    None
}

/// The contributor count a contributors reply gives: none unless 200; then
/// the `rel="last"` page of its Link header, else the entries listed.
pub open spec fn contributors_spec(status: u16, link: Option<Seq<char>>, listed: u64) -> Option<u64> {
    if status != 200 {
        None
    } else {
        match link {
            Some(l) => match last_page_from(l, 0) {
                Some(n) => Some(n),
                None => Some(listed),
            },
            None => Some(listed),
        }
    }
}

/// `sum_all`, capped at `u64::MAX`.
pub open spec fn capped_total(xs: Seq<Vec<u64>>) -> u64 {
    if sum_all(xs) > u64::MAX { u64::MAX } else { sum_all(xs) as u64 }
}

impl GitHub {
    /// A GitHub Provider using `token`; an empty token counts as none.
    pub fn with_token(token: Option<String>) -> (r: GitHub)
        ensures
            r@ == match token {
                Some(t) => if t@.len() == 0 { None } else { Some(t@) },
                None => None,
            },
    {
        let token = match token {
            Some(t) => if t.as_str().is_empty() { None } else { Some(t) },
            None => None,
        };
        GitHub { token }
    }

    pub fn has_token(&self) -> (r: bool)
        ensures
            r == (self@ is Some),
    {
        self.token.is_some()
    }

    /// The request headers: the API media type and version, plus a bearer
    /// token when one is set.
    pub fn request_headers(&self) -> (r: Vec<(String, String)>)
        ensures
            header_views(r@) == headers_spec(self@),
    {
        let mut hs: Vec<(String, String)> = Vec::new();
        hs.push((owned("Accept"), owned("application/vnd.github+json")));
        hs.push((owned("X-GitHub-Api-Version"), owned("2022-11-28")));
        if let Some(t) = &self.token {
            hs.push((owned("Authorization"), concat2("Bearer ", t.as_str())));
        }
        assert(header_views(hs@) =~= headers_spec(self@));
        hs
    }

    /// The repository's API URL.
    pub fn repo_url(repo: &RepoId) -> (r: String)
        ensures
            r@ == repo_url_spec(repo.owner@, repo.name@),
    {
        let mut u = owned("https://api.github.com/repos/");
        push_str(&mut u, repo.owner.as_str());
        push_str(&mut u, "/");
        push_str(&mut u, repo.name.as_str());
        u
    }

    /// The repository URL for `identity`, or the Outcome when it is not a
    /// repository.
    pub fn request_url(identity: &Identity) -> (r: Result<String, Outcome>)
        ensures
            match (r, request_spec(identity@)) {
                (Ok(u), Ok(v)) => u@ == v,
                (Err(o), Err(v)) => o@ == v,
                _ => false,
            },
    {
        match identity {
            Identity::Repo(repo) => Ok(GitHub::repo_url(repo)),
            _ => Err(Outcome::NotApplicable { note: owned("GitHub requires a repository") }),
        }
    }

    pub fn contributors_url(base: &str) -> (r: String)
        ensures
            r@ == contributors_url_spec(base@),
    {
        concat2(base, "/contributors?per_page=1&anon=true")
    }

    pub fn releases_url(base: &str) -> (r: String)
        ensures
            r@ == releases_url_spec(base@),
    {
        concat2(base, "/releases?per_page=100")
    }

    /// The first decision on the repository record's reply.
    pub fn settle_core(fetched: Result<HttpResponse, TransportError>) -> (r: Result<HttpResponse, Outcome>)
        ensures
            match (r, core_settled(fetched_view(fetched))) {
                (Ok(resp), Ok(v)) => resp@ == v,
                (Err(o), Err(v)) => o@ == v,
                _ => false,
            },
    {
        let resp = match fetched {
            Err(e) => {
                return Err(Outcome::Failed { error: e.message() });
            },
            Ok(resp) => resp,
        };
        let s = resp.status;
        if s == 200 {
            Ok(resp)
        } else if s == 404 {
            Err(Outcome::NotApplicable { note: owned("repository not found on GitHub") })
        } else if s == 403 {
            Err(Outcome::Failed { error: owned("GitHub rate limit or access denied (403); set GITHUB_TOKEN") })
        } else if s == 429 {
            Err(Outcome::Failed { error: owned("rate limited by GitHub (429)") })
        } else if 500 <= s && s < 600 {
            let mut e = owned("GitHub server error (");
            crate::text::push_u64(&mut e, s as u64);
            push_str(&mut e, ")");
            Err(Outcome::Failed { error: e })
        } else {
            let mut e = owned("unexpected GitHub status (");
            crate::text::push_u64(&mut e, s as u64);
            push_str(&mut e, ")");
            Err(Outcome::Failed { error: e })
        }
    }

    /// A GET of `url` through `transport` carrying this Provider's headers;
    /// what comes back is the transport's.
    fn get<T: Transport>(&self, url: &str, transport: &mut T) -> (r: Result<HttpResponse, TransportError>)
        ensures
            old(transport).replies(final(transport), url@, headers_spec(self@), fetched_view(r)),
    {
        let owned = self.request_headers();
        let mut hs: Vec<(&str, &str)> = Vec::new();
        let mut i: usize = 0;
        while i < owned.len()
            invariant
                i <= owned.len(),
                header_pair_views(hs@) == header_views(owned@.take(i as int)),
            decreases owned.len() - i,
        {
            let ghost prev = hs@;
            hs.push((owned[i].0.as_str(), owned[i].1.as_str()));
            proof {
                lemma_take_push(owned@, i as int);
                lemma_map_push(prev, hs@[i as int], |p: (&str, &str)| (p.0@, p.1@));
                lemma_map_push(owned@.take(i as int), owned@[i as int], |p: (String, String)| (p.0@, p.1@));
            }
            i = i + 1;
        }
        proof {
            assert(owned@.take(owned.len() as int) =~= owned@);
        }
        transport.get_with_headers(url, hs.as_slice())
    }

    /// Requests the repository record through `transport` with this
    /// Provider's headers: the base URL and the 200 reply to read, or the
    /// Outcome already decided. No request is made for an Identity that is
    /// not a repository.
    pub fn request_core<T: Transport>(&self, identity: &Identity, transport: &mut T) -> (r: Result<(String, HttpResponse), Outcome>)
        ensures
            match request_spec(identity@) {
                Err(v) => r is Err && r->Err_0@ == v && *final(transport) == *old(transport),
                Ok(u) => exists|f: Result<crate::transport::HttpResponseView, crate::transport::TransportErrorView>|
                    #![trigger old(transport).replies(final(transport), u, headers_spec(self@), f)]
                    old(transport).replies(final(transport), u, headers_spec(self@), f)
                        && requested(core_settled(f), u) == request_view(r),
            },
    {
        let base = match GitHub::request_url(identity) {
            Ok(u) => u,
            Err(o) => return Err(o),
        };
        let ghost u = base@;
        let fetched = self.get(base.as_str(), transport);
        let ghost fv = fetched_view(fetched);
        let r = match GitHub::settle_core(fetched) {
            Ok(resp) => Ok((base, resp)),
            Err(o) => Err(o),
        };
        proof {
            assert(requested(core_settled(fv), u) == request_view(r));
        }
        r
    }

    /// The Outcome for a repository record that could not be read.
    pub fn malformed(reason: &str) -> (o: Outcome)
        ensures
            o@ == OutcomeView::Failed("unexpected GitHub response: "@ + reason@),
    {
        Outcome::Failed { error: concat2("unexpected GitHub response: ", reason) }
    }

    /// The contributor count from the contributors call (one per page): the
    /// `rel="last"` page number of its Link header, else the number of
    /// entries listed. A reply other than 200 gives no count.
    pub fn contributor_count(status: u16, link: Option<&str>, listed: u64) -> (r: Option<u64>)
        ensures
            r == contributors_spec(status, match link { Some(l) => Some(l@), None => None }, listed),
    {
        if status != 200 {
            return None;
        }
        if let Some(l) = link {
            if let Some(n) = parse_last_page(l) {
                return Some(n);
            }
        }
        Some(listed)
    }

    /// The downloads summed over every asset of every release, capped at
    /// `u64::MAX`.
    pub fn release_total(asset_downloads: &Vec<Vec<u64>>) -> (r: u64)
        ensures
            r == if sum_all(asset_downloads@) > u64::MAX { u64::MAX as nat } else { sum_all(asset_downloads@) },
    {
        let mut total: u128 = 0;
        let mut i: usize = 0;
        while i < asset_downloads.len()
            invariant
                i <= asset_downloads.len(),
                total == if sum_all(asset_downloads@.take(i as int)) > u64::MAX { (u64::MAX + 1) as nat } else { sum_all(asset_downloads@.take(i as int)) },
            decreases asset_downloads.len() - i,
        {
            assert(asset_downloads@.take(i + 1).drop_last() =~= asset_downloads@.take(i as int));
            let row = &asset_downloads[i];
            let mut j: usize = 0;
            let mut row_total: u128 = 0;
            while j < row.len()
                invariant
                    j <= row.len(),
                    row_total == if sum_row(row@.take(j as int)) > u64::MAX { (u64::MAX + 1) as nat } else { sum_row(row@.take(j as int)) },
                decreases row.len() - j,
            {
                assert(row@.take(j + 1).drop_last() =~= row@.take(j as int));
                row_total = if row_total + row[j] as u128 > u64::MAX as u128 { u64::MAX as u128 + 1 } else { row_total + row[j] as u128 };
                j = j + 1;
            }
            assert(row@.take(row.len() as int) =~= row@);
            total = if total + row_total > u64::MAX as u128 { u64::MAX as u128 + 1 } else { total + row_total };
            i = i + 1;
        }
        assert(asset_downloads@.take(asset_downloads.len() as int) =~= asset_downloads@);
        if total > u64::MAX as u128 { u64::MAX } else { total as u64 }
    }

    /// The contributor count from the contributors call: none when the call
    /// failed; else what its status, Link header and the `listed` entries of
    /// its body give.
    pub fn contributors_from(fetched: &Result<HttpResponse, TransportError>, listed: u64) -> (r: Option<u64>)
        ensures
            r == match fetched {
                Err(_) => None,
                Ok(resp) => contributors_spec(resp.status, crate::transport::header_lookup(resp@.headers, crate::text::lower("link"@)), listed),
            },
    {
        match fetched {
            Err(_) => None,
            Ok(resp) => GitHub::contributor_count(resp.status, resp.header("link"), listed),
        }
    }

    /// The release downloads from the releases call: the total over every
    /// asset when the call answered 200 with a readable listing (`assets`,
    /// each release's asset download counts); otherwise none.
    pub fn release_downloads_from(fetched: &Result<HttpResponse, TransportError>, assets: Option<&Vec<Vec<u64>>>) -> (r: Option<u64>)
        ensures
            r == match (fetched, assets) {
                (Ok(resp), Some(a)) => if resp.status == 200 { Some(capped_total(a@)) } else { None },
                _ => None,
            },
    {
        match (fetched, assets) {
            (Ok(resp), Some(a)) => if resp.status == 200 { Some(GitHub::release_total(a)) } else { None },
            _ => None,
        }
    }

    /// The Outcome for a readable repository record, given what the secondary
    /// calls found: each Metric only when its figure is present. A failed
    /// secondary call omits its Metric rather than failing the repository.
    pub fn assemble(
        core: &GhRepo,
        age: Option<RepoAge>,
        contributors: Option<u64>,
        release_downloads: Option<u64>,
        base: &str,
        canonical: &str,
        as_of: Timestamp,
    ) -> (o: Outcome)
        ensures
            o@ == OutcomeView::Values(repo_metrics(*core, age, contributors, release_downloads, base@, canonical@, as_of), None),
    {
        let mut ms: Vec<Metric> = Vec::new();
        assert(metric_seq_view(ms@) =~= seq![]);
        push_code(&mut ms, "stars", core.stargazers_count, base, None, canonical, as_of);
        push_code(&mut ms, "forks", core.forks_count, base, None, canonical, as_of);
        push_code(&mut ms, "watchers", core.subscribers_count, base, Some("users watching the repo (subscribers)"), canonical, as_of);
        if let Some(a) = &age {
            let note = concat2("since ", a.since.as_str());
            push_metric(&mut ms, cumulative_metric(
                "repo_age_years", Category::Code, real_metric_value(&a.years), "github", canonical, as_of, base,
                Some(note.as_str()),
            ));
        }
        let curl = GitHub::contributors_url(base);
        push_code(&mut ms, "contributors", contributors, curl.as_str(), None, canonical, as_of);
        let rurl = GitHub::releases_url(base);
        push_code(&mut ms, "release_downloads", release_downloads, rurl.as_str(), Some("summed across release assets"), canonical, as_of);
        crate::model::values_of(ms)
    }
}

/// The date part (`YYYY-MM-DD`) of an RFC 3339 timestamp: everything before
/// the first `T`, or the whole text when there is none.
pub open spec fn date_part(s: Seq<char>) -> Seq<char> {
    match find(s, seq!['T']) {
        Some(i) => s.take(i),
        None => s,
    }
}

/// Whole seconds from `created` to `now`; a creation time in the future
/// counts as 0.
pub open spec fn age_seconds_spec(created: int, now: int) -> int {
    if now > created { (now - created) / 1_000_000_000 } else { 0 }
}

/// Whole seconds from `created` to `now`; a creation time in the future
/// counts as 0.
pub fn age_seconds(created: Timestamp, now: Timestamp) -> (r: i128)
    requires
        in_time_range(created),
        in_time_range(now),
    ensures
        r == age_seconds_spec(created.unix_nanos as int, now.unix_nanos as int),
{
    if now.unix_nanos > created.unix_nanos {
        (now.unix_nanos - created.unix_nanos) / 1_000_000_000
    } else {
        0
    }
}

/// A repository's age as of `now` from its `created_at` text: the whole
/// seconds since creation (0 for a creation time in the future) and the
/// creation date; `None` when the text is not RFC 3339.
pub fn repo_age_seconds(created_at: &str, now: Timestamp) -> (r: Option<(i128, String)>)
    requires
        in_time_range(now),
    ensures
        match rfc3339_moment(created_at@) {
            Some((n, _)) => r matches Some((secs, since)) && secs == age_seconds_spec(n, now.unix_nanos as int)
                && since@ == date_part(created_at@),
            None => r is None,
        },
{
    match parse_rfc3339(created_at) {
        Some(created) => Some((age_seconds(created, now), creation_date(created_at))),
        None => None,
    }
}

pub fn creation_date(created_at: &str) -> (r: String)
    ensures
        r@ == date_part(created_at@),
{
    let v = chars_of(created_at);
    let t = vec!['T'];
    assert(t@ =~= seq!['T']);
    match find_exec(&v, &t) {
        Some(i) => {
            proof { crate::text::lemma_find_bounds(v@, t@); }
            let p = slice_chars(&v, 0, i);
            assert(p@ =~= v@.take(i as int));
            string_of(&p)
        },
        None => string_of(&v),
    }
}

impl Provider for GitHub {
    fn name(&self) -> (r: &'static str)
        ensures
            r@ == "github"@,
    {
        "github"
    }

    fn category(&self) -> (r: Category)
        ensures
            r == Category::Code,
    {
        Category::Code
    }

    fn supports(&self, identity: &Identity) -> (r: bool)
        ensures
            r == supports_spec(identity@),
    {
        match identity {
            Identity::Repo(_) => true,
            _ => false,
        }
    }

    /// Optional: a token only raises the rate limit.
    fn key_requirement(&self) -> (r: KeyRequirement)
        ensures
            r matches KeyRequirement::Optional { env_var } && env_var@ == "GITHUB_TOKEN"@,
    {
        KeyRequirement::Optional { env_var: "GITHUB_TOKEN" }
    }
}

} // verus!

//! The single HTTP-transport seam. Every Provider reaches the network only
//! through the [`Transport`] trait, so the whole system can be driven offline
//! from recorded responses (see [`MockTransport`]). The production transport
//! lives with the program, outside this library.

use std::time::Duration;

use vstd::prelude::*;

use crate::text::{
    lemma_map_push, lemma_take_push, chars_of, concat2, contains, contains_exec, lower, lower_chars, owned, push_str, str_eq,
    string_of,
};

verus! {

/// A raw HTTP response as seen by a Provider. 4xx/5xx are *not* errors here:
/// the status is handed back so the Provider can classify the Outcome.
/// Header names are held lower-cased.
#[derive(Debug, Clone, PartialEq, Eq)]
pub struct HttpResponse {
    pub status: u16,
    pub body: String,
    pub url: String,
    pub headers: Vec<(String, String)>,
}

pub struct HttpResponseView {
    pub status: u16,
    pub body: Seq<char>,
    pub url: Seq<char>,
    pub headers: Seq<(Seq<char>, Seq<char>)>,
}

pub open spec fn pairs_view(hs: Seq<(String, String)>) -> Seq<(Seq<char>, Seq<char>)> {
    hs.map_values(|p: (String, String)| (p.0@, p.1@))
}

impl View for HttpResponse {
    type V = HttpResponseView;

    open spec fn view(&self) -> HttpResponseView {
        HttpResponseView {
            status: self.status,
            body: self.body@,
            url: self.url@,
            headers: pairs_view(self.headers@),
        }
    }
}

/// The value of the last header named `key` (a later entry replaces an
/// earlier one, as in a map).
pub open spec fn header_lookup(hs: Seq<(Seq<char>, Seq<char>)>, key: Seq<char>) -> Option<Seq<char>>
    decreases hs.len(),
{
    if hs.len() == 0 {
        None
    } else if hs.last().0 == key {
        Some(hs.last().1)
    } else {
        header_lookup(hs.drop_last(), key)
    }
}

impl HttpResponse {
    /// Looks up a response header case-insensitively.
    pub fn header(&self, name: &str) -> (r: Option<&str>)
        ensures
            match r {
                Some(v) => header_lookup(self@.headers, lower(name@)) == Some(v@),
                None => header_lookup(self@.headers, lower(name@)) is None,
            },
    {
        let key = string_of(&lower_chars(&chars_of(name)));
        let ghost hv = self@.headers;
        let mut i: usize = self.headers.len();
        assert(hv.take(i as int) =~= hv);
        while i > 0
            invariant
                i <= self.headers.len(),
                hv == pairs_view(self.headers@),
                key@ == lower(name@),
                header_lookup(hv, key@) == header_lookup(hv.take(i as int), key@),
            decreases i,
        {
            let ghost pre = hv.take(i as int);
            assert(pre.last() == hv[i - 1]);
            if str_eq(self.headers[i - 1].0.as_str(), key.as_str()) {
                return Some(self.headers[i - 1].1.as_str());
            }
            assert(pre.drop_last() =~= hv.take(i - 1));
            i = i - 1;
        }
        None
    }
}

/// A genuine transport failure (no HTTP status was obtained). These become
/// `Failed` Outcomes.
#[derive(Debug, Clone, PartialEq, Eq)]
pub enum TransportError {
    Timeout,
    ConnectionFailed,
    Other(String),
    Body(String),
}

pub enum TransportErrorView {
    Timeout,
    ConnectionFailed,
    Other(Seq<char>),
    Body(Seq<char>),
}

impl View for TransportError {
    type V = TransportErrorView;

    open spec fn view(&self) -> TransportErrorView {
        match self {
            TransportError::Timeout => TransportErrorView::Timeout,
            TransportError::ConnectionFailed => TransportErrorView::ConnectionFailed,
            TransportError::Other(s) => TransportErrorView::Other(s@),
            TransportError::Body(s) => TransportErrorView::Body(s@),
        }
    }
}

pub open spec fn transport_error_text(e: TransportErrorView) -> Seq<char> {
    match e {
        TransportErrorView::Timeout => "request timed out"@,
        TransportErrorView::ConnectionFailed => "connection failed"@,
        TransportErrorView::Other(s) => "transport error: "@ + s,
        TransportErrorView::Body(s) => "could not read response body: "@ + s,
    }
}

impl TransportError {
    /// The error's display text.
    pub fn message(&self) -> (r: String)
        ensures
            r@ == transport_error_text(self@),
    {
        match self {
            TransportError::Timeout => owned("request timed out"),
            TransportError::ConnectionFailed => owned("connection failed"),
            TransportError::Other(s) => concat2("transport error: ", s.as_str()),
            TransportError::Body(s) => concat2("could not read response body: ", s.as_str()),
        }
    }

    pub fn duplicate(&self) -> (r: TransportError)
        ensures
            r@ == self@,
    {
        match self {
            TransportError::Timeout => TransportError::Timeout,
            TransportError::ConnectionFailed => TransportError::ConnectionFailed,
            TransportError::Other(s) => TransportError::Other(s.clone()),
            TransportError::Body(s) => TransportError::Body(s.clone()),
        }
    }
}

pub open spec fn fetched_view(r: Result<HttpResponse, TransportError>) -> Result<HttpResponseView, TransportErrorView> {
    match r {
        Ok(resp) => Ok(resp@),
        Err(e) => Err(e@),
    }
}

/// The one seam: given a URL (and optional request headers, e.g. an auth
/// token), return a response or a transport failure. A transport may keep
/// state between calls (a scripted mock advances), so calls take `&mut self`.
pub trait Transport {
    /// Whether `r` is a reply this transport may give to a GET of `url` with
    /// request `headers`, going from state `self` to state `after`. A
    /// transport that does not define it (one on the network) admits any
    /// reply.
    open spec fn replies(
        &self,
        after: &Self,
        url: Seq<char>,
        headers: Seq<(Seq<char>, Seq<char>)>,
        r: Result<HttpResponseView, TransportErrorView>,
    ) -> bool {
        true
    }

    fn get_with_headers(&mut self, url: &str, headers: &[(&str, &str)]) -> (r: Result<HttpResponse, TransportError>)
        ensures
            old(self).replies(final(self), url@, header_pair_views(headers@), fetched_view(r)),
    ;

    /// The common no-extra-headers case.
    fn get(&mut self, url: &str) -> (r: Result<HttpResponse, TransportError>)
        ensures
            old(self).replies(final(self), url@, Seq::empty(), fetched_view(r)),
    {
        let none: [(&str, &str); 0] = [];
        proof {
            assert(header_pair_views(none@) =~= Seq::empty());
        }
        self.get_with_headers(url, &none)
    }
}

/// Request headers as (name, value) texts.
pub open spec fn header_pair_views(hs: Seq<(&str, &str)>) -> Seq<(Seq<char>, Seq<char>)> {
    hs.map_values(|p: (&str, &str)| (p.0@, p.1@))
}

pub open spec fn user_agent_text(contact_email: Option<Seq<char>>) -> Seq<char> {
    match contact_email {
        Some(email) => "boast/0.3.0 (+https://github.com/mbhall88/boast; mailto:"@ + email + ")"@,
        None => "boast/0.3.0 (+https://github.com/mbhall88/boast)"@,
    }
}

/// The tool's User-Agent, optionally extended with a contact email so
/// OpenAlex and Crossref admit requests to their faster "polite pool".
pub fn build_user_agent(contact_email: Option<&str>) -> (r: String)
    ensures
        r@ == user_agent_text(match contact_email { Some(e) => Some(e@), None => None }),
{
    match contact_email {
        Some(email) => {
            let mut s = owned("boast/0.3.0 (+https://github.com/mbhall88/boast; mailto:");
            push_str(&mut s, email);
            push_str(&mut s, ")");
            s
        },
        None => owned("boast/0.3.0 (+https://github.com/mbhall88/boast)"),
    }
}

pub open spec fn transient_status(status: u16) -> bool {
    status == 429 || (500 <= status && status < 600)
}

/// A transient HTTP status worth retrying: 429 (rate limited) or any 5xx.
/// Any other 4xx is a permanent classification and is never retried.
pub fn is_transient_status(status: u16) -> (r: bool)
    ensures
        r == transient_status(status),
{
    status == 429 || (500 <= status && status < 600)
}

pub open spec fn transient_error(e: TransportErrorView) -> bool {
    e is Timeout || e is ConnectionFailed
}

/// A transient transport failure worth retrying: a timeout or a failed
/// connection. `Other` and `Body` cannot be positively identified as
/// transient, so they are never retried.
pub fn is_transient_error(err: &TransportError) -> (r: bool)
    ensures
        r == transient_error(err@),
{
    match err {
        TransportError::Timeout => true,
        TransportError::ConnectionFailed => true,
        _ => false,
    }
}

/// The whole number of nanoseconds a `Duration` spans
/// (`Duration::as_nanos`).
pub uninterp spec fn duration_as_nanos(d: Duration) -> u128;

/// `Duration::as_nanos`.
#[verifier::external_body]
fn duration_nanos(d: &Duration) -> (r: u128)
    ensures
        r == duration_as_nanos(*d),
{
    d.as_nanos()
}

/// `Duration::from_nanos`: a span of exactly `n` nanoseconds.
#[verifier::external_body]
fn duration_of_nanos(n: u64) -> (r: Duration)
    ensures
        duration_as_nanos(r) == n,
{
    Duration::from_nanos(n)
}

/// `Duration::from_millis`: a span of exactly `ms` milliseconds.
#[verifier::external_body]
fn duration_of_millis(ms: u64) -> (r: Duration)
    ensures
        duration_as_nanos(r) == ms as int * 1_000_000,
{
    Duration::from_millis(ms)
}

/// Bounded exponential-backoff policy for retrying a transient failure
/// before giving up. A persistently failing fetch still ends as its last
/// error status or transport error once the budget is spent.
#[derive(Debug, Clone, Copy)]
pub struct RetryPolicy {
    /// Retries attempted after the first try (`max_retries = 3` means up to
    /// 4 attempts in all).
    pub max_retries: u32,
    /// Delay before the first retry; doubles on each subsequent retry.
    pub base_delay: Duration,
}

impl Default for RetryPolicy {
    fn default() -> (r: RetryPolicy)
        ensures
            r.max_retries == 3,
            duration_as_nanos(r.base_delay) == 500_000_000,
    {
        RetryPolicy { max_retries: 3, base_delay: duration_of_millis(500) }
    }
}

/// `base · 2^attempt` nanoseconds, capped at `u64::MAX`.
pub open spec fn backoff_nanos(base: nat, attempt: nat) -> nat
    decreases attempt,
{
    if attempt == 0 {
        if base > u64::MAX as nat { u64::MAX as nat } else { base }
    } else {
        let half = backoff_nanos(base, (attempt - 1) as nat);
        if 2 * half > u64::MAX as nat { u64::MAX as nat } else { 2 * half }
    }
}

/// Whether a fetch that came back `transient` on attempt `attempt` (counted
/// from 0) is tried again under a budget of `max_retries`.
pub open spec fn retries(max_retries: u32, attempt: u32, transient: bool) -> bool {
    transient && attempt < max_retries
}

/// The delay, in nanoseconds, before retry number `attempt + 1`: the base
/// delay doubled `attempt` times, capped at `u64::MAX` nanoseconds.
pub fn backoff_delay_nanos(base_nanos: u128, attempt: u32) -> (r: u64)
    ensures
        r == backoff_nanos(base_nanos as nat, attempt as nat),
{
    let mut d: u64 = if base_nanos > u64::MAX as u128 { u64::MAX } else { base_nanos as u64 };
    let mut k: u32 = 0;
    while k < attempt
        invariant
            k <= attempt,
            d == backoff_nanos(base_nanos as nat, k as nat),
        decreases attempt - k,
    {
        d = if d > u64::MAX / 2 { u64::MAX } else { 2 * d };
        k = k + 1;
    }
    d
}

/// Whether to try again after attempt `attempt` came back `transient`.
pub fn should_retry(policy: &RetryPolicy, attempt: u32, transient: bool) -> (r: bool)
    ensures
        r == retries(policy.max_retries, attempt, transient),
{
    transient && attempt < policy.max_retries
}

/// While no cap is reached, each retry waits twice as long as the one before.
pub proof fn law_backoff_doubles(base: nat, attempt: nat)
    requires
        backoff_nanos(base, attempt + 1) < u64::MAX,
    ensures
        backoff_nanos(base, attempt + 1) == 2 * backoff_nanos(base, attempt),
{
}

/// The first retry waits exactly the base delay (when it fits).
pub proof fn law_first_backoff_is_base(base: nat)
    requires
        base <= u64::MAX,
    ensures
        backoff_nanos(base, 0) == base,
{
}

/// Retrying is bounded: no attempt at or past the budget is retried, and a
/// non-transient reply is never retried.
pub proof fn law_retries_are_bounded(max_retries: u32, attempt: u32, transient: bool)
    ensures
        retries(max_retries, attempt, transient) ==> transient && attempt < max_retries,
        attempt >= max_retries ==> !retries(max_retries, attempt, transient),
        !transient ==> !retries(max_retries, attempt, transient),
{
}

/// A backoff sleeper: a function that may be called with any delay.
struct Sleeper<S: Fn(Duration)> {
    f: S,
}

impl<S: Fn(Duration)> Sleeper<S> {
    #[verifier::type_invariant]
    spec fn callable(self) -> bool {
        forall|d: Duration| call_requires(self.f, (d,))
    }

    fn new(f: S) -> (r: Sleeper<S>)
        requires
            forall|d: Duration| call_requires(f, (d,)),
        ensures
            r.f == f,
    {
        Sleeper { f }
    }

    /// Waits for `d` (or records it, for a sleeper used in tests).
    fn sleep(&self, d: Duration) {
        proof {
            use_type_invariant(self);
        }
        (self.f)(d);
    }
}

/// Wraps any [`Transport`] with bounded exponential backoff over transient
/// failures (429, 5xx, timeout, connection failure). `sleep` is called with
/// each backoff delay.
pub struct RetryingTransport<T: Transport, S: Fn(Duration)> {
    inner: T,
    policy: RetryPolicy,
    sleep: Sleeper<S>,
    /// The delays handed to `sleep`, in nanoseconds.
    slept: Ghost<Seq<nat>>,
}

impl<T: Transport, S: Fn(Duration)> RetryingTransport<T, S> {
    /// Wraps `inner` with an explicit policy and a `sleep` for the backoff
    /// delays, so callers can retry without a real wall-clock delay.
    pub fn with_policy_and_sleep(inner: T, policy: RetryPolicy, sleep: S) -> (r: Self)
        requires
            forall|d: Duration| call_requires(sleep, (d,)),
        ensures
            r.policy() == policy,
            r.inner() == inner,
            r.sleeper() == sleep,
            r.slept() == Seq::<nat>::empty(),
    {
        RetryingTransport { inner, policy, sleep: Sleeper::new(sleep), slept: Ghost(Seq::empty()) }
    }

    pub closed spec fn policy(&self) -> RetryPolicy {
        self.policy
    }

    /// The wrapped transport, in its current state.
    pub closed spec fn inner(&self) -> T {
        self.inner
    }

    /// The function each backoff delay is handed to.
    pub closed spec fn sleeper(&self) -> S {
        self.sleep.f
    }

    /// The backoff delays handed to `sleep` so far, in nanoseconds, oldest
    /// first.
    pub closed spec fn slept(&self) -> Seq<nat> {
        self.slept@
    }
}

/// The first `n` backoff delays from a base delay of `base` nanoseconds.
pub open spec fn backoff_delays(base: nat, n: nat) -> Seq<nat> {
    Seq::new(n, |k: int| backoff_nanos(base, k as nat))
}

/// Whether a reply is a transient failure: a transient status or a
/// transient transport error.
pub open spec fn transient_reply(r: Result<HttpResponseView, TransportErrorView>) -> bool {
    match r {
        Ok(v) => transient_status(v.status),
        Err(e) => transient_error(e),
    }
}

/// Attempt `k` of `run` is a reply `inner` may give from the state the
/// previous attempt left (`start` for the first).
pub open spec fn attempt_ok<T: Transport>(
    start: T,
    run: Seq<(T, Result<HttpResponseView, TransportErrorView>)>,
    k: int,
    url: Seq<char>,
    headers: Seq<(Seq<char>, Seq<char>)>,
) -> bool {
    let before = if k == 0 { start } else { run[k - 1].0 };
    before.replies(&run[k].0, url, headers, run[k].1)
}

/// A whole run of the retry loop from inner state `start`: each attempt's
/// state and reply in order. Every attempt but the last came back transient
/// within the retry budget and was retried; the last was not retried.
pub open spec fn retry_run<T: Transport>(
    start: T,
    run: Seq<(T, Result<HttpResponseView, TransportErrorView>)>,
    max_retries: u32,
    url: Seq<char>,
    headers: Seq<(Seq<char>, Seq<char>)>,
) -> bool {
    &&& run.len() >= 1
    &&& forall|k: int| 0 <= k < run.len() ==> #[trigger] attempt_ok(start, run, k, url, headers)
    &&& forall|k: int| 0 <= k < run.len() - 1 ==> transient_reply(#[trigger] run[k].1) && k < max_retries
    &&& !(transient_reply(run.last().1) && run.len() - 1 < max_retries)
}

impl<T: Transport, S: Fn(Duration)> Transport for RetryingTransport<T, S> {
    /// The reply is the last attempt's of a retry run over the inner
    /// transport, the delays handed to the sleeper are the run's backoff
    /// delays, and the policy and the sleeper are unchanged.
    open spec fn replies(
        &self,
        after: &Self,
        url: Seq<char>,
        headers: Seq<(Seq<char>, Seq<char>)>,
        r: Result<HttpResponseView, TransportErrorView>,
    ) -> bool {
        &&& after.policy() == self.policy()
        &&& after.sleeper() == self.sleeper()
        &&& exists|run: Seq<(T, Result<HttpResponseView, TransportErrorView>)>|
            #[trigger] retry_run(self.inner(), run, self.policy().max_retries, url, headers)
                && after.inner() == run.last().0
                && r == run.last().1
                && after.slept() == self.slept() + backoff_delays(
                    duration_as_nanos(self.policy().base_delay) as nat,
                    (run.len() - 1) as nat,
                )
    }

    fn get_with_headers(&mut self, url: &str, headers: &[(&str, &str)]) -> (r: Result<HttpResponse, TransportError>) {
        let ghost start: T = self.inner;
        let ghost policy0 = self.policy;
        let ghost sleep0 = self.sleep;
        let ghost slept0 = self.slept;
        let ghost hv = header_pair_views(headers@);
        let ghost mut run: Seq<(T, Result<HttpResponseView, TransportErrorView>)> = Seq::empty();
        let base = duration_nanos(&self.policy.base_delay);
        let mut attempt: u32 = 0;
        loop
            invariant
                attempt <= self.policy.max_retries,
                self.policy == policy0,
                self.sleep == sleep0,
                old(self).inner == start,
                old(self).policy == policy0,
                old(self).sleep == sleep0,
                hv == header_pair_views(headers@),
                run.len() == attempt,
                forall|k: int| 0 <= k < run.len() ==> #[trigger] attempt_ok(start, run, k, url@, hv),
                forall|k: int| 0 <= k < run.len() ==> transient_reply(#[trigger] run[k].1) && k < policy0.max_retries,
                old(self).slept == slept0,
                base == duration_as_nanos(policy0.base_delay),
                self.slept@ == slept0@ + backoff_delays(base as nat, attempt as nat),
                run.len() == 0 ==> self.inner == start,
                run.len() > 0 ==> self.inner == run.last().0,
            decreases self.policy.max_retries - attempt,
        {
            let ghost before = self.inner;
            let outcome = self.inner.get_with_headers(url, headers);
            proof {
                let ghost prev = run;
                run = run.push((self.inner, fetched_view(outcome)));
                assert forall|k: int| 0 <= k < run.len() implies #[trigger] attempt_ok(start, run, k, url@, hv) by {
                    if k < prev.len() {
                        assert(attempt_ok(start, prev, k, url@, hv));
                        if k > 0 {
                            assert(run[k - 1] == prev[k - 1]);
                        }
                        assert(run[k] == prev[k]);
                    }
                }
            }
            let transient = match &outcome {
                Ok(resp) => is_transient_status(resp.status),
                Err(e) => is_transient_error(e),
            };
            assert(transient == transient_reply(fetched_view(outcome)));
            if !should_retry(&self.policy, attempt, transient) {
                proof {
                    assert(retry_run(start, run, policy0.max_retries, url@, hv));
                    assert(old(self).inner() == start);
                    assert(retry_run(old(self).inner(), run, old(self).policy().max_retries, url@, hv));
                    assert(self.sleeper() == old(self).sleeper());
                }
                return outcome;
            }
            let delay = duration_of_nanos(backoff_delay_nanos(base, attempt));
            self.sleep.sleep(delay);
            self.slept = Ghost(self.slept@.push(duration_as_nanos(delay) as nat));
            proof {
                assert(backoff_delays(base as nat, (attempt + 1) as nat) =~= backoff_delays(base as nat, attempt as nat).push(
                    backoff_nanos(base as nat, attempt as nat),
                ));
            }
            attempt = attempt + 1;
        }
    }
}

/// A retrying GET, whatever the inner transport answers: the inner
/// transport is asked between once and `max_retries + 1` times, each time
/// with the same URL and headers; every attempt but the last came back
/// transient and was retried; the reply returned is the last attempt's,
/// unchanged, and is transient only once the budget is spent; the sleeper is
/// handed base · 2^k nanoseconds before retry k; and the policy is kept.
pub proof fn law_retrying_get<T: Transport, S: Fn(Duration)>(
    t: RetryingTransport<T, S>,
    after: RetryingTransport<T, S>,
    url: Seq<char>,
    headers: Seq<(Seq<char>, Seq<char>)>,
    r: Result<HttpResponseView, TransportErrorView>,
)
    requires
        t.replies(&after, url, headers, r),
    ensures
        after.policy() == t.policy(),
        exists|run: Seq<(T, Result<HttpResponseView, TransportErrorView>)>| {
            &&& #[trigger] retry_run(t.inner(), run, t.policy().max_retries, url, headers)
            &&& 1 <= run.len() <= t.policy().max_retries + 1
            &&& forall|k: int| 0 <= k < run.len() - 1 ==> transient_reply(#[trigger] run[k].1)
            &&& r == run.last().1
            &&& transient_reply(r) ==> run.len() == t.policy().max_retries + 1
            &&& after.inner() == run.last().0
            &&& after.slept() == t.slept() + backoff_delays(
                duration_as_nanos(t.policy().base_delay) as nat,
                (run.len() - 1) as nat,
            )
        },
{
    let run = choose|run: Seq<(T, Result<HttpResponseView, TransportErrorView>)>|
        #[trigger] retry_run(t.inner(), run, t.policy().max_retries, url, headers)
            && after.inner() == run.last().0
            && r == run.last().1
            && after.slept() == t.slept() + backoff_delays(
                duration_as_nanos(t.policy().base_delay) as nat,
                (run.len() - 1) as nat,
            );
    if run.len() >= 2 {
        assert(run.len() - 2 < t.policy().max_retries) by {
            assert(transient_reply(run[run.len() - 2].1));
        }
    }
}

/// One scripted reply of a [`MockTransport`] route.
pub enum MockReply {
    Http { status: u16, body: String, headers: Vec<(String, String)> },
    Error(TransportError),
    /// A queue of `(status, body)` replies: each call consumes the next entry
    /// in order; once only one is left, it repeats.
    Sequence(Vec<(u16, String)>),
}

pub enum ReplyView {
    Http(u16, Seq<char>, Seq<(Seq<char>, Seq<char>)>),
    Error(TransportErrorView),
    Sequence(Seq<(u16, Seq<char>)>),
}

pub open spec fn queue_view(q: Seq<(u16, String)>) -> Seq<(u16, Seq<char>)> {
    q.map_values(|p: (u16, String)| (p.0, p.1@))
}

impl View for MockReply {
    type V = ReplyView;

    open spec fn view(&self) -> ReplyView {
        match self {
            MockReply::Http { status, body, headers } => ReplyView::Http(*status, body@, pairs_view(headers@)),
            MockReply::Error(e) => ReplyView::Error(e@),
            MockReply::Sequence(q) => ReplyView::Sequence(queue_view(q@)),
        }
    }
}

/// Offline transport. Routes are matched by URL substring in registration
/// order; an unmatched URL is answered with a transport error, never with a
/// network call.
pub struct MockTransport {
    routes: Vec<(String, MockReply)>,
}

pub open spec fn routes_view(rs: Seq<(String, MockReply)>) -> Seq<(Seq<char>, ReplyView)> {
    rs.map_values(|p: (String, MockReply)| (p.0@, p.1@))
}

impl View for MockTransport {
    type V = Seq<(Seq<char>, ReplyView)>;

    closed spec fn view(&self) -> Seq<(Seq<char>, ReplyView)> {
        routes_view(self.routes@)
    }
}

/// The first route, in registration order, whose needle occurs in `url`.
pub open spec fn first_route(routes: Seq<(Seq<char>, ReplyView)>, url: Seq<char>, from: int) -> Option<int>
    decreases routes.len() - from,
{
    if from < 0 || from >= routes.len() {
        None
    } else if contains(url, routes[from].0) {
        Some(from)
    } else {
        first_route(routes, url, from + 1)
    }
}

pub open spec fn mock_response(status: u16, body: Seq<char>, url: Seq<char>, headers: Seq<(Seq<char>, Seq<char>)>) -> HttpResponseView {
    HttpResponseView { status, body, url, headers }
}

pub open spec fn no_route_text(url: Seq<char>) -> Seq<char> {
    "MockTransport: no route registered for URL "@ + url
}

/// What the mock answers for `url`, and its routes afterwards.
pub open spec fn mock_reply(routes: Seq<(Seq<char>, ReplyView)>, url: Seq<char>) -> (Result<HttpResponseView, TransportErrorView>, Seq<(Seq<char>, ReplyView)>) {
    match first_route(routes, url, 0) {
        None => (Err(TransportErrorView::Other(no_route_text(url))), routes),
        Some(i) => match routes[i].1 {
            ReplyView::Http(status, body, headers) => (Ok(mock_response(status, body, url, headers)), routes),
            ReplyView::Error(e) => (Err(e), routes),
            ReplyView::Sequence(q) => if q.len() == 0 {
                (Err(TransportErrorView::Other("MockTransport: on_sequence given an empty reply list"@)), routes)
            } else if q.len() > 1 {
                (Ok(mock_response(q[0].0, q[0].1, url, seq![])), routes.update(i, (routes[i].0, ReplyView::Sequence(q.drop_first()))))
            } else {
                (Ok(mock_response(q[0].0, q[0].1, url, seq![])), routes)
            },
        },
    }
}

fn copy_pairs(hs: &Vec<(String, String)>) -> (r: Vec<(String, String)>)
    ensures
        pairs_view(r@) == pairs_view(hs@),
{
    let mut r: Vec<(String, String)> = Vec::new();
    let mut i: usize = 0;
    while i < hs.len()
        invariant
            i <= hs.len(),
            pairs_view(r@) == pairs_view(hs@.take(i as int)),
        decreases hs.len() - i,
    {
        let ghost prev = r@;
        r.push((hs[i].0.clone(), hs[i].1.clone()));
        proof {
            lemma_take_push(hs@, i as int);
            lemma_map_push(prev, r@[i as int], |p: (String, String)| (p.0@, p.1@));
            lemma_map_push(hs@.take(i as int), hs@[i as int], |p: (String, String)| (p.0@, p.1@));
        }
        i = i + 1;
    }
    assert(hs@.take(hs.len() as int) =~= hs@);
    r
}

fn copy_queue(q: &Vec<(u16, String)>) -> (r: Vec<(u16, String)>)
    ensures
        queue_view(r@) == queue_view(q@),
{
    let mut r: Vec<(u16, String)> = Vec::new();
    let mut i: usize = 0;
    while i < q.len()
        invariant
            i <= q.len(),
            queue_view(r@) == queue_view(q@.take(i as int)),
        decreases q.len() - i,
    {
        let ghost prev = r@;
        r.push((q[i].0, q[i].1.clone()));
        proof {
            lemma_take_push(q@, i as int);
            lemma_map_push(prev, r@[i as int], |p: (u16, String)| (p.0, p.1@));
            lemma_map_push(q@.take(i as int), q@[i as int], |p: (u16, String)| (p.0, p.1@));
        }
        i = i + 1;
    }
    assert(q@.take(q.len() as int) =~= q@);
    r
}

impl MockTransport {
    pub fn new() -> (r: MockTransport)
        ensures
            r@ == Seq::<(Seq<char>, ReplyView)>::empty(),
    {
        let r = MockTransport { routes: Vec::new() };
        assert(r@ =~= Seq::<(Seq<char>, ReplyView)>::empty());
        r
    }

    /// Replies with `status` and `body` for any URL containing `url_contains`.
    pub fn on(self, url_contains: &str, status: u16, body: &str) -> (r: MockTransport)
        ensures
            r@ == self@.push((url_contains@, ReplyView::Http(status, body@, seq![]))),
    {
        let mut routes = self.routes;
        let ghost before = routes@;
        routes.push((owned(url_contains), MockReply::Http { status, body: owned(body), headers: Vec::new() }));
        let r = MockTransport { routes };
        assert(pairs_view(Seq::<(String, String)>::empty()) =~= seq![]);
        assert(routes_view(r.routes@) =~= routes_view(before).push((url_contains@, ReplyView::Http(status, body@, seq![]))));
        r
    }

    /// Replies with `status`, `body`, and response headers (names
    /// lower-cased) for a matching URL.
    pub fn on_with_headers(self, url_contains: &str, status: u16, body: &str, headers: &[(&str, &str)]) -> (r: MockTransport)
        ensures
            r@ == self@.push((url_contains@, ReplyView::Http(
                status,
                body@,
                headers@.map_values(|p: (&str, &str)| (lower(p.0@), p.1@)),
            ))),
    {
        let mut hs: Vec<(String, String)> = Vec::new();
        let mut i: usize = 0;
        while i < headers.len()
            invariant
                i <= headers.len(),
                pairs_view(hs@) == headers@.take(i as int).map_values(|p: (&str, &str)| (lower(p.0@), p.1@)),
            decreases headers.len() - i,
        {
            let (k, v) = headers[i];
            let ghost prev = hs@;
            hs.push((string_of(&lower_chars(&chars_of(k))), owned(v)));
            proof {
                lemma_take_push(headers@, i as int);
                lemma_map_push(prev, hs@[i as int], |p: (String, String)| (p.0@, p.1@));
                lemma_map_push(headers@.take(i as int), headers@[i as int], |p: (&str, &str)| (lower(p.0@), p.1@));
            }
            i = i + 1;
        }
        assert(headers@.take(headers@.len() as int) =~= headers@);
        let mut routes = self.routes;
        let ghost before = routes@;
        routes.push((owned(url_contains), MockReply::Http { status, body: owned(body), headers: hs }));
        let r = MockTransport { routes };
        assert(routes_view(r.routes@) =~= routes_view(before).push((url_contains@, ReplyView::Http(
            status,
            body@,
            headers@.map_values(|p: (&str, &str)| (lower(p.0@), p.1@)),
        ))));
        r
    }

    /// Replies with a transport error for any URL containing `url_contains`.
    pub fn on_error(self, url_contains: &str, err: TransportError) -> (r: MockTransport)
        ensures
            r@ == self@.push((url_contains@, ReplyView::Error(err@))),
    {
        let mut routes = self.routes;
        let ghost before = routes@;
        let ghost ev = err@;
        routes.push((owned(url_contains), MockReply::Error(err)));
        let r = MockTransport { routes };
        assert(routes_view(r.routes@) =~= routes_view(before).push((url_contains@, ReplyView::Error(ev))));
        r
    }

    /// Replies with a scripted sequence of `(status, body)` responses for a
    /// matching URL: each call consumes the next entry in order; once only
    /// one is left, it repeats.
    pub fn on_sequence(self, url_contains: &str, replies: &[(u16, &str)]) -> (r: MockTransport)
        ensures
            r@ == self@.push((url_contains@, ReplyView::Sequence(
                replies@.map_values(|p: (u16, &str)| (p.0, p.1@)),
            ))),
    {
        let mut q: Vec<(u16, String)> = Vec::new();
        let mut i: usize = 0;
        while i < replies.len()
            invariant
                i <= replies.len(),
                queue_view(q@) == replies@.take(i as int).map_values(|p: (u16, &str)| (p.0, p.1@)),
            decreases replies.len() - i,
        {
            let (st, b) = replies[i];
            let ghost prev = q@;
            q.push((st, owned(b)));
            proof {
                lemma_take_push(replies@, i as int);
                lemma_map_push(prev, q@[i as int], |p: (u16, String)| (p.0, p.1@));
                lemma_map_push(replies@.take(i as int), replies@[i as int], |p: (u16, &str)| (p.0, p.1@));
            }
            i = i + 1;
        }
        assert(replies@.take(replies@.len() as int) =~= replies@);
        let mut routes = self.routes;
        let ghost before = routes@;
        routes.push((owned(url_contains), MockReply::Sequence(q)));
        let r = MockTransport { routes };
        assert(routes_view(r.routes@) =~= routes_view(before).push((url_contains@, ReplyView::Sequence(
            replies@.map_values(|p: (u16, &str)| (p.0, p.1@)),
        ))));
        r
    }

    /// The index of the first route whose needle occurs in `url`.
    fn route_for(&self, url: &str) -> (r: Option<usize>)
        ensures
            match r {
                Some(i) => first_route(self@, url@, 0) == Some(i as int) && i < self.routes.len(),
                None => first_route(self@, url@, 0) is None,
            },
    {
        let u = chars_of(url);
        let mut i: usize = 0;
        while i < self.routes.len()
            invariant
                i <= self.routes.len(),
                u@ == url@,
                self@ == routes_view(self.routes@),
                first_route(self@, url@, 0) == first_route(self@, url@, i as int),
            decreases self.routes.len() - i,
        {
            let needle = chars_of(self.routes[i].0.as_str());
            if contains_exec(&u, &needle) {
                return Some(i);
            }
            i = i + 1;
        }
        None
    }
}

impl Transport for MockTransport {
    /// A mock's reply is the scripted one: what `mock_reply` gives for the
    /// URL, with the routes it leaves behind.
    open spec fn replies(
        &self,
        after: &Self,
        url: Seq<char>,
        headers: Seq<(Seq<char>, Seq<char>)>,
        r: Result<HttpResponseView, TransportErrorView>,
    ) -> bool {
        (r, after@) == mock_reply(self@, url)
    }

    fn get_with_headers(&mut self, url: &str, headers: &[(&str, &str)]) -> (r: Result<HttpResponse, TransportError>)
        ensures
            (fetched_view(r), final(self)@) == mock_reply(old(self)@, url@),
    {
        let ghost routes0 = self@;
        let found = self.route_for(url);
        let i = match found {
            None => {
                return Err(TransportError::Other(concat2("MockTransport: no route registered for URL ", url)));
            },
            Some(i) => i,
        };
        let needle = self.routes[i].0.clone();
        let reply: (Option<(u16, String)>, Result<HttpResponse, TransportError>) = match &self.routes[i].1 {
            MockReply::Http { status, body, headers } => (None, Ok(HttpResponse {
                status: *status,
                body: body.clone(),
                url: owned(url),
                headers: copy_pairs(headers),
            })),
            MockReply::Error(e) => (None, Err(e.duplicate())),
            MockReply::Sequence(q) => {
                if q.len() == 0 {
                    (None, Err(TransportError::Other(owned("MockTransport: on_sequence given an empty reply list"))))
                } else {
                    (Some((q[0].0, q[0].1.clone())), Ok(HttpResponse {
                        status: q[0].0,
                        body: q[0].1.clone(),
                        url: owned(url),
                        headers: Vec::new(),
                    }))
                }
            },
        };
        let rest_opt: Option<Vec<(u16, String)>> = match &self.routes[i].1 {
            MockReply::Sequence(q) => if q.len() > 1 { Some(copy_queue(q)) } else { None },
            _ => None,
        };
        if let Some(mut rest) = rest_opt {
            let ghost full = rest@;
            assert(queue_view(full).len() == full.len());
            rest.remove(0);
            assert(queue_view(rest@) =~= queue_view(full).drop_first());
            self.routes.set(i, (needle, MockReply::Sequence(rest)));
            assert(self@ =~= routes0.update(i as int, (routes0[i as int].0, match routes0[i as int].1 {
                ReplyView::Sequence(q) => ReplyView::Sequence(q.drop_first()),
                other => other,
            })));
        }
        let (_, r) = reply;
        proof {
            assert(pairs_view(Seq::<(String, String)>::empty()) =~= seq![]);
        }
        r
    }
}

} // verus!

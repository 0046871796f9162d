use std::sync::{Arc, Mutex};
use std::time::Duration;

use boast::transport::{
    backoff_delay_nanos, build_user_agent, is_transient_error, is_transient_status, should_retry,
    MockTransport, RetryPolicy, RetryingTransport, Transport, TransportError,
};

/// Records every delay passed to a fake `sleep`, so tests can assert
/// backoff happened (and how many times) without a real wall-clock wait.
fn recording_sleep() -> (impl Fn(Duration), Arc<Mutex<Vec<Duration>>>) {
    let delays = Arc::new(Mutex::new(Vec::new()));
    let recorder = delays.clone();
    (move |d: Duration| recorder.lock().unwrap().push(d), delays)
}

#[test]
fn mock_matches_by_substring_in_order() {
    let mut t = MockTransport::new()
        .on("works/doi:10.1", 200, "ok-body")
        .on_error("timeout", TransportError::Timeout);

    let r = t.get("https://api.openalex.org/works/doi:10.1/x").unwrap();
    assert_eq!(r.status, 200);
    assert_eq!(r.body, "ok-body");

    assert_eq!(t.get("https://example.com/timeout"), Err(TransportError::Timeout));
}

#[test]
fn mock_exposes_response_headers_case_insensitively() {
    let mut t = MockTransport::new().on_with_headers(
        "contributors",
        200,
        "[]",
        &[("Link", "<...&page=477>; rel=\"last\"")],
    );
    let r = t.get("https://api.github.com/repos/o/n/contributors").unwrap();
    assert!(r.header("link").unwrap().contains("page=477"));
    assert!(r.header("LINK").unwrap().contains("page=477"));
    assert_eq!(r.header("etag"), None);
}

#[test]
fn mock_reports_an_unmatched_url_as_an_error_naming_it() {
    let mut t = MockTransport::new();
    match t.get("https://unmocked.example") {
        Err(TransportError::Other(msg)) => {
            assert!(msg.contains("no route registered"));
            assert!(msg.contains("https://unmocked.example"));
        }
        other => panic!("unexpected {other:?}"),
    }
}

#[test]
fn mock_sequence_advances_per_call_then_repeats_the_last_reply() {
    let mut t = MockTransport::new().on_sequence("example.com", &[(429, ""), (200, "ok")]);
    assert_eq!(t.get("https://example.com").unwrap().status, 429);
    assert_eq!(t.get("https://example.com").unwrap().status, 200);
    // Exhausted: the last scripted reply keeps repeating.
    assert_eq!(t.get("https://example.com").unwrap().status, 200);
}

#[test]
fn builds_user_agent_with_and_without_a_contact_email() {
    let bare = build_user_agent(None);
    assert!(bare.starts_with("boast/"));
    assert!(bare.contains("github.com/mbhall88/boast"));
    assert!(!bare.contains("mailto:"));

    let polite = build_user_agent(Some("me@example.com"));
    assert!(polite.contains("mailto:me@example.com"));
    assert!(polite.contains("github.com/mbhall88/boast"));
}

#[test]
fn user_agent_has_its_exact_shape() {
    assert_eq!(build_user_agent(None), "boast/0.3.0 (+https://github.com/mbhall88/boast)");
    assert_eq!(
        build_user_agent(Some("a@b.c")),
        "boast/0.3.0 (+https://github.com/mbhall88/boast; mailto:a@b.c)"
    );
}

#[test]
fn a_429_then_200_succeeds_after_one_backoff_at_the_transport_layer() {
    let inner = MockTransport::new().on_sequence("example.com", &[(429, ""), (200, "ok-body")]);
    let (sleep, delays) = recording_sleep();
    let mut t = RetryingTransport::with_policy_and_sleep(inner, RetryPolicy::default(), sleep);

    let resp = t.get("https://example.com").unwrap();
    assert_eq!(resp.status, 200);
    assert_eq!(resp.body, "ok-body");
    assert_eq!(delays.lock().unwrap().len(), 1, "exactly one retry backoff");
}

#[test]
fn persistent_429_is_bounded_and_ends_as_the_last_response() {
    let inner = MockTransport::new().on("example.com", 429, "still limited");
    let (sleep, delays) = recording_sleep();
    let policy = RetryPolicy { max_retries: 2, base_delay: Duration::from_millis(1) };
    let mut t = RetryingTransport::with_policy_and_sleep(inner, policy, sleep);

    let resp = t.get("https://example.com").unwrap();
    assert_eq!(resp.status, 429, "never coerced into a fake success");
    // Bounded: exactly max_retries backoffs, never retried forever.
    assert_eq!(delays.lock().unwrap().len(), 2);
}

#[test]
fn persistent_timeout_is_bounded_and_ends_as_an_error() {
    let inner = MockTransport::new().on_error("example.com", TransportError::Timeout);
    let (sleep, delays) = recording_sleep();
    let policy = RetryPolicy { max_retries: 2, base_delay: Duration::from_millis(1) };
    let mut t = RetryingTransport::with_policy_and_sleep(inner, policy, sleep);

    assert_eq!(t.get("https://example.com"), Err(TransportError::Timeout));
    assert_eq!(delays.lock().unwrap().len(), 2);
}

#[test]
fn backoff_delay_doubles_each_retry() {
    let inner = MockTransport::new().on("example.com", 503, "");
    let (sleep, delays) = recording_sleep();
    let policy = RetryPolicy { max_retries: 3, base_delay: Duration::from_millis(10) };
    let mut t = RetryingTransport::with_policy_and_sleep(inner, policy, sleep);

    let _ = t.get("https://example.com");
    let seen = delays.lock().unwrap().clone();
    assert_eq!(
        seen,
        vec![Duration::from_millis(10), Duration::from_millis(20), Duration::from_millis(40)]
    );
}

#[test]
fn success_and_permanent_failure_are_never_retried() {
    let inner = MockTransport::new()
        .on("ok.example", 200, "fine")
        .on("missing.example", 404, "nope")
        .on_error("bad.example", TransportError::Other("nope".into()));
    let (sleep, delays) = recording_sleep();
    let mut t = RetryingTransport::with_policy_and_sleep(inner, RetryPolicy::default(), sleep);

    assert_eq!(t.get("https://ok.example").unwrap().status, 200);
    assert_eq!(t.get("https://missing.example").unwrap().status, 404);
    assert!(t.get("https://bad.example").is_err());
    assert!(delays.lock().unwrap().is_empty(), "no backoff for a success or a permanent failure");
}

#[test]
fn default_policy_allows_three_retries_from_half_a_second() {
    let p = RetryPolicy::default();
    assert_eq!(p.max_retries, 3);
    assert_eq!(p.base_delay, Duration::from_millis(500));
}

#[test]
fn backoff_nanos_double_and_saturate() {
    assert_eq!(backoff_delay_nanos(10, 0), 10);
    assert_eq!(backoff_delay_nanos(10, 3), 80);
    assert_eq!(backoff_delay_nanos(u128::MAX, 0), u64::MAX);
    assert_eq!(backoff_delay_nanos(1 << 62, 2), u64::MAX);
}

#[test]
fn transient_statuses_and_errors() {
    assert!(is_transient_status(429));
    assert!(is_transient_status(500));
    assert!(is_transient_status(503));
    assert!(!is_transient_status(200));
    assert!(!is_transient_status(404));
    assert!(is_transient_error(&TransportError::Timeout));
    assert!(is_transient_error(&TransportError::ConnectionFailed));
    assert!(!is_transient_error(&TransportError::Other("x".into())));
    assert!(!is_transient_error(&TransportError::Body("x".into())));
}

#[test]
fn retry_decisions_stop_at_the_budget() {
    let p = RetryPolicy { max_retries: 2, base_delay: Duration::from_millis(1) };
    assert!(should_retry(&p, 0, true));
    assert!(should_retry(&p, 1, true));
    assert!(!should_retry(&p, 2, true));
    assert!(!should_retry(&p, 0, false));
}

#[test]
fn transport_error_messages() {
    assert_eq!(TransportError::Timeout.message(), "request timed out");
    assert_eq!(TransportError::ConnectionFailed.message(), "connection failed");
    assert_eq!(TransportError::Other("boom".into()).message(), "transport error: boom");
    assert_eq!(
        TransportError::Body("eof".into()).message(),
        "could not read response body: eof"
    );
}

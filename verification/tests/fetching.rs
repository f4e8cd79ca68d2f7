use rust_scrapper::fetch::{backoff_secs, FetchError, FetchOutcome, FetchStep, Fetcher, MAX_ATTEMPTS};

#[test]
fn backoff_doubles_with_each_attempt() {
    assert_eq!(backoff_secs(0), 1);
    assert_eq!(backoff_secs(1), 2);
    assert_eq!(backoff_secs(2), 4);
    assert_eq!(backoff_secs(3), 8);
    assert_eq!(backoff_secs(10), 1024);
    assert_eq!(backoff_secs(63), 1u64 << 63);
    assert_eq!(MAX_ATTEMPTS, 64);
}

#[test]
fn two_failures_then_success_takes_three_attempts() {
    let mut fetcher = Fetcher::new(3);
    assert!(matches!(fetcher.start(), FetchStep::Request));
    let step = fetcher.on_outcome(FetchOutcome::RequestFailed("connection refused".to_string()));
    assert!(matches!(step, FetchStep::Wait(2)));
    let step = fetcher.on_outcome(FetchOutcome::Status(503));
    assert!(matches!(step, FetchStep::Wait(4)));
    let step = fetcher.on_outcome(FetchOutcome::Body("<html></html>".to_string()));
    assert!(matches!(&step, FetchStep::Done(body) if body == "<html></html>"));
    assert_eq!(fetcher.attempts(), 3);
}

#[test]
fn always_failing_gives_up_after_two_attempts() {
    let mut fetcher = Fetcher::new(2);
    assert!(matches!(fetcher.start(), FetchStep::Request));
    let step = fetcher.on_outcome(FetchOutcome::RequestFailed("timeout one".to_string()));
    assert!(matches!(step, FetchStep::Wait(2)));
    assert_eq!(fetcher.attempts(), 1);
    let step = fetcher.on_outcome(FetchOutcome::RequestFailed("timeout two".to_string()));
    assert!(matches!(&step, FetchStep::Failed(FetchError::Request(m)) if m == "timeout two"));
    assert_eq!(fetcher.attempts(), 2);
    assert_eq!(fetcher.attempts(), fetcher.max_retries());
}

#[test]
fn statuses_only_end_in_retries_exhausted() {
    let mut fetcher = Fetcher::new(2);
    assert!(matches!(fetcher.on_outcome(FetchOutcome::Status(500)), FetchStep::Wait(2)));
    let step = fetcher.on_outcome(FetchOutcome::Status(404));
    assert!(matches!(&step, FetchStep::Failed(FetchError::RetriesExhausted)));
    if let FetchStep::Failed(e) = step {
        assert_eq!(e.message(), "Maximum retries exceeded");
    }
}

#[test]
fn an_earlier_request_error_outlives_a_later_status() {
    let mut fetcher = Fetcher::new(2);
    fetcher.on_outcome(FetchOutcome::RequestFailed("dns".to_string()));
    let step = fetcher.on_outcome(FetchOutcome::Status(500));
    assert!(matches!(&step, FetchStep::Failed(FetchError::Request(m)) if m == "dns"));
    if let FetchStep::Failed(e) = step {
        assert_eq!(e.message(), "dns");
    }
}

#[test]
fn an_unreadable_body_fails_at_once() {
    let mut fetcher = Fetcher::new(3);
    let step = fetcher.on_outcome(FetchOutcome::BodyUnreadable("decode".to_string()));
    assert!(matches!(&step, FetchStep::Failed(FetchError::Body(m)) if m == "decode"));
    assert_eq!(fetcher.attempts(), 1);
    if let FetchStep::Failed(e) = step {
        assert_eq!(e.message(), "decode");
    }
}

#[test]
fn no_attempt_allowed_fails_without_a_request() {
    let fetcher = Fetcher::new(0);
    assert!(matches!(fetcher.start(), FetchStep::Failed(FetchError::RetriesExhausted)));
    assert_eq!(fetcher.attempts(), 0);
}

#[test]
fn first_attempt_success_needs_no_wait() {
    let mut fetcher = Fetcher::new(1);
    assert!(matches!(fetcher.start(), FetchStep::Request));
    let step = fetcher.on_outcome(FetchOutcome::Body("ok".to_string()));
    assert!(matches!(&step, FetchStep::Done(body) if body == "ok"));
    assert_eq!(fetcher.attempts(), 1);
}

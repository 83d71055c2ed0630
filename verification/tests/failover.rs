use hope_core::failover::{classify_error, retry_delay_ms, retry_delay_with_noise, FailoverReason};

#[test]
fn test_rate_limit() {
    assert_eq!(classify_error("429 Too Many Requests"), FailoverReason::RateLimit);
    assert_eq!(classify_error("Rate limit exceeded"), FailoverReason::RateLimit);
    assert_eq!(classify_error("RESOURCE_EXHAUSTED"), FailoverReason::RateLimit);
}

#[test]
fn test_overloaded() {
    assert_eq!(classify_error("503 Service Unavailable"), FailoverReason::Overloaded);
    assert_eq!(classify_error("The server is overloaded"), FailoverReason::Overloaded);
    assert_eq!(classify_error("502 Bad Gateway"), FailoverReason::Overloaded);
}

#[test]
fn test_timeout() {
    assert_eq!(classify_error("request timed out"), FailoverReason::Timeout);
    assert_eq!(classify_error("ETIMEDOUT"), FailoverReason::Timeout);
    assert_eq!(classify_error("connection reset by peer"), FailoverReason::Timeout);
}

#[test]
fn test_auth() {
    assert_eq!(classify_error("401 Unauthorized"), FailoverReason::Auth);
    assert_eq!(classify_error("Invalid API key"), FailoverReason::Auth);
    assert_eq!(classify_error("403 Forbidden"), FailoverReason::Auth);
}

#[test]
fn test_billing() {
    assert_eq!(classify_error("402 Payment Required"), FailoverReason::Billing);
    assert_eq!(classify_error("You exceeded your current quota"), FailoverReason::Billing);
}

#[test]
fn test_model_not_found() {
    assert_eq!(classify_error("404 Not Found"), FailoverReason::ModelNotFound);
    assert_eq!(classify_error("model_not_found"), FailoverReason::ModelNotFound);
    assert_eq!(classify_error("The model does not exist"), FailoverReason::ModelNotFound);
}

#[test]
fn test_context_overflow() {
    assert_eq!(
        classify_error("This model's maximum context length is 200000 tokens"),
        FailoverReason::ContextOverflow
    );
    assert_eq!(classify_error("context_length_exceeded"), FailoverReason::ContextOverflow);
}

#[test]
fn test_unknown() {
    assert_eq!(classify_error("some random error"), FailoverReason::Unknown);
}

#[test]
fn test_retryable() {
    assert!(FailoverReason::RateLimit.is_retryable());
    assert!(FailoverReason::Overloaded.is_retryable());
    assert!(FailoverReason::Timeout.is_retryable());
    assert!(!FailoverReason::Auth.is_retryable());
    assert!(!FailoverReason::ContextOverflow.is_retryable());
}

#[test]
fn test_terminal() {
    assert!(FailoverReason::ContextOverflow.is_terminal());
    assert!(!FailoverReason::RateLimit.is_terminal());
    assert!(!FailoverReason::Unknown.is_terminal());
}

#[test]
fn test_retry_delay() {
    let d0 = retry_delay_ms(0, 1000, 10000);
    assert!(d0 >= 900 && d0 <= 1100);

    let d1 = retry_delay_ms(1, 1000, 10000);
    assert!(d1 >= 1800 && d1 <= 2200);

    let d_max = retry_delay_ms(10, 1000, 10000);
    assert!(d_max >= 9000 && d_max <= 11000);
}

#[test]
fn retry_delay_with_fixed_noise() {
    // base 1000 at attempt 2 is 4000; jitter range 400; noise 0 gives -400.
    assert_eq!(retry_delay_with_noise(2, 1000, 10000, 0), 3600);
    // noise 400 lands in the middle: no jitter.
    assert_eq!(retry_delay_with_noise(2, 1000, 10000, 400), 4000);
    // noise 800 gives +400; 801 wraps around to -400.
    assert_eq!(retry_delay_with_noise(2, 1000, 10000, 800), 4400);
    assert_eq!(retry_delay_with_noise(2, 1000, 10000, 801), 3600);
    // A tiny delay has no jitter.
    assert_eq!(retry_delay_with_noise(0, 5, 10000, 12345), 5);
    // Clamped to the maximum.
    assert_eq!(retry_delay_with_noise(20, 1000, 10000, 1000), 10000);
}

#[test]
fn classification_ignores_case_and_compaction_follows_overflow() {
    assert_eq!(classify_error("RATE LIMIT hit"), FailoverReason::RateLimit);
    assert!(FailoverReason::ContextOverflow.needs_compaction());
    assert!(!FailoverReason::Timeout.needs_compaction());
}

#[test]
fn retry_delay_band_for_huge_backoff() {
    let c = u64::MAX;
    let d = retry_delay_ms(0, u64::MAX, u64::MAX);
    assert!(d >= c - c / 10);
    assert_eq!(retry_delay_with_noise(0, u64::MAX, u64::MAX, 0), c - c / 10);
    assert_eq!(retry_delay_with_noise(0, u64::MAX, u64::MAX, u64::MAX - 1), u64::MAX);
}

#[test]
fn classification_ignores_ascii_case() {
    assert_eq!(classify_error("RATE LIMIT EXCEEDED"), classify_error("rate limit exceeded"));
    assert_eq!(classify_error("RATE LIMIT EXCEEDED"), FailoverReason::RateLimit);
    assert_eq!(classify_error("Context_Length_Exceeded"), FailoverReason::ContextOverflow);
}

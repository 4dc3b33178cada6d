use corvus::provider_error::{classify_parts, ErrorKind};

#[test]
fn detects_context_length_by_code() {
    assert_eq!(
        classify_parts(400, Some("context_length_exceeded"), "bad request"),
        ErrorKind::ContextLengthExceeded
    );
}

#[test]
fn detects_context_length_by_message_when_code_is_generic() {
    assert_eq!(
        classify_parts(
            400,
            Some("invalid_request_error"),
            "This model's maximum context length is 65536 tokens."
        ),
        ErrorKind::ContextLengthExceeded
    );
}

#[test]
fn quota_wins_over_rate_limit_when_both_look_true() {
    assert_eq!(
        classify_parts(
            429,
            Some("insufficient_quota"),
            "You exceeded your current quota"
        ),
        ErrorKind::AuthOrQuota
    );
}

#[test]
fn classifies_by_status_when_message_says_nothing() {
    assert_eq!(
        classify_parts(402, None, "Insufficient Balance"),
        ErrorKind::AuthOrQuota
    );
    assert_eq!(
        classify_parts(401, None, "invalid api key"),
        ErrorKind::AuthOrQuota
    );
    assert_eq!(
        classify_parts(429, None, "slow down"),
        ErrorKind::RateLimited
    );
    assert_eq!(classify_parts(503, None, "bad gateway"), ErrorKind::Unknown);
}

#[test]
fn retryable_is_only_the_recoverable_kinds() {
    assert!(ErrorKind::ContextLengthExceeded.is_retryable());
    assert!(ErrorKind::RateLimited.is_retryable());
    assert!(ErrorKind::Transport.is_retryable());
    assert!(!ErrorKind::AuthOrQuota.is_retryable());
    assert!(!ErrorKind::Unknown.is_retryable());
}

#[test]
fn each_way_to_say_it_is_known_whatever_the_case() {
    for message in [
        "CONTEXT LENGTH",
        "the Maximum Context is reached",
        "Too many tokens",
        "please reduce the length",
    ] {
        assert_eq!(
            classify_parts(500, None, message),
            ErrorKind::ContextLengthExceeded,
            "{message}"
        );
    }
    for message in ["INSUFFICIENT BALANCE", "insufficient quota", "over quota"] {
        assert_eq!(
            classify_parts(500, None, message),
            ErrorKind::AuthOrQuota,
            "{message}"
        );
    }
    assert_eq!(
        classify_parts(200, Some("CONTEXT_LENGTH_EXCEEDED"), ""),
        ErrorKind::ContextLengthExceeded
    );
    assert_eq!(
        classify_parts(200, Some("Insufficient_Quota"), ""),
        ErrorKind::AuthOrQuota
    );
}

#[test]
fn an_overflow_counts_before_an_exhausted_balance() {
    assert_eq!(
        classify_parts(429, Some("insufficient_quota"), "maximum context length"),
        ErrorKind::ContextLengthExceeded
    );
}

#[test]
fn statuses_at_the_borders() {
    for (status, kind) in [
        (400, ErrorKind::Unknown),
        (401, ErrorKind::AuthOrQuota),
        (403, ErrorKind::AuthOrQuota),
        (404, ErrorKind::Unknown),
        (428, ErrorKind::Unknown),
        (429, ErrorKind::RateLimited),
        (430, ErrorKind::Unknown),
        (500, ErrorKind::Unknown),
    ] {
        assert_eq!(classify_parts(status, None, ""), kind, "{status}");
    }
}

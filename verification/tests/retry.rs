use qwen2api::retry::{
    classify, classify_lower, is_account_swap_retryable, lower_is_swap_retryable, AccountMark,
    InvalidReason,
};

#[test]
fn aliyun_quota_exceeded_is_swap_retryable() {
    let real = "Qwen upstream error code=internal_error request_id=a79b... details=Allocated quota exceeded, please increase your quota limit. For details, see: https://help.aliyun.com/zh/model-studio/error-code#token-limit";
    assert!(is_account_swap_retryable(real), "Allocated quota exceeded 應走跨帳號重試");
}

#[test]
fn rate_limit_variants_are_swap_retryable() {
    for s in ["HTTP 429 Too Many Requests", "rate limit exceeded", "RateLimited", "too many requests"] {
        assert!(is_account_swap_retryable(s), "應為 swap-retryable: {s}");
    }
}

#[test]
fn transient_upstream_errors_are_swap_retryable() {
    for s in [
        "code=internal_error something happened",
        "service unavailable, try again",
        "HTTP 503 Service Unavailable",
        "502 Bad Gateway",
        "504 Gateway Timeout",
    ] {
        assert!(is_account_swap_retryable(s), "應為 swap-retryable: {s}");
    }
}

#[test]
fn permanent_errors_are_not_swap_retryable() {
    for s in [
        "code=data_inspection_failed 内容安全警告",
        "401 Unauthorized invalid token",
        "code=auth_error account banned",
        "JSON 解析錯誤",
        "expected string at line 1 column 2",
    ] {
        assert!(!is_account_swap_retryable(s), "不該 swap-retry: {s}");
    }
}

#[test]
fn an_error_is_read_in_any_case() {
    assert!(is_account_swap_retryable("QUOTA EXCEEDED"));
    assert!(is_account_swap_retryable("ÜBER das Limit: RATE LIMIT"));
    assert!(!is_account_swap_retryable(""));
}

#[test]
fn words_around_an_error_do_not_hide_it() {
    for word in ["quota exceeded", "token-limit", "today's usage", "internal error", "503"] {
        assert!(lower_is_swap_retryable(word));
        let wrapped = format!("before {word} after");
        assert!(lower_is_swap_retryable(&wrapped));
    }
}

#[test]
fn errors_mark_accounts() {
    for limited in ["HTTP 429", "Rate Limit", "code=RateLimited", "Too many requests", "upper limit", "today's usage"] {
        assert_eq!(classify(limited), AccountMark::RateLimited);
        assert!(is_account_swap_retryable(limited));
    }
    assert_eq!(
        classify("401 Unauthorized: pending"),
        AccountMark::Invalid(InvalidReason::PendingActivation)
    );
    assert_eq!(
        classify("HTTP 403: account needs ACTIVATION"),
        AccountMark::Invalid(InvalidReason::PendingActivation)
    );
    assert_eq!(classify("HTTP 401"), AccountMark::Invalid(InvalidReason::AuthError));
    assert_eq!(classify("401 and 429"), AccountMark::RateLimited);
    assert_eq!(classify("activation pending"), AccountMark::Unchanged);
    assert_eq!(classify("timeout"), AccountMark::Unchanged);
    assert_eq!(classify_lower("unauthorized"), AccountMark::Invalid(InvalidReason::AuthError));
}

#[test]
fn invalid_reasons_have_words() {
    assert_eq!(InvalidReason::PendingActivation.as_str(), "pending_activation");
    assert_eq!(InvalidReason::AuthError.as_str(), "auth_error");
}

use rfe::antifraud::{
    check_step, parse_u64, retry_after_backoff_ms, trim_chars, CbrApiClient, CbrApiError,
    CheckStep,
};

#[test]
fn retry_after_header_seconds_parsed() {
    assert_eq!(retry_after_backoff_ms(Some("2"), 1), 2_000);
    assert_eq!(retry_after_backoff_ms(Some("0"), 2), 1_000);
    assert_eq!(retry_after_backoff_ms(Some("not-a-number"), 3), 1_500);
    assert_eq!(retry_after_backoff_ms(None, 2), 1_000);
}

#[test]
fn retry_after_is_trimmed() {
    assert_eq!(retry_after_backoff_ms(Some("  3 \t"), 1), 3_000);
    assert_eq!(retry_after_backoff_ms(Some("+4"), 1), 4_000);
    assert_eq!(retry_after_backoff_ms(Some("-4"), 1), 500);
    assert_eq!(retry_after_backoff_ms(Some(""), 2), 1_000);
}

#[test]
fn parse_and_trim_helpers() {
    let t: String = trim_chars(&" a b ".chars().collect()).into_iter().collect();
    assert_eq!(t, "a b");
    assert_eq!(parse_u64(&"18446744073709551615".chars().collect()), Some(u64::MAX));
    assert_eq!(parse_u64(&"18446744073709551616".chars().collect()), None);
    assert_eq!(parse_u64(&"".chars().collect()), None);
    assert_eq!(parse_u64(&"007".chars().collect()), Some(7));
}

#[test]
fn check_steps() {
    assert_eq!(check_step(0, 429, Some("2")), CheckStep::Retry { retries: 1, backoff_ms: 2_000 });
    assert_eq!(check_step(2, 429, None), CheckStep::Retry { retries: 3, backoff_ms: 1_500 });
    assert_eq!(check_step(3, 429, Some("1")), CheckStep::RateLimited);
    assert_eq!(check_step(0, 503, None), CheckStep::Unavailable);
    assert_eq!(check_step(0, 200, None), CheckStep::ReadDecision);
    assert_eq!(check_step(0, 204, None), CheckStep::ReadDecision);
    assert_eq!(check_step(0, 404, None), CheckStep::HttpError);
}

#[test]
fn builder_requires_api_key() {
    match CbrApiClient::builder().base_url("http://x").build() {
        Err(CbrApiError::Auth(m)) => assert_eq!(m, "Missing API Key"),
        _ => panic!("expected an auth error"),
    }
}

#[test]
fn builder_sets_urls_and_key() {
    let client = CbrApiClient::builder().api_key("k1").build().unwrap();
    let af = client.antifraud();
    assert_eq!(af.check_url(), "https://finapi.cbr.ru/v1/antifraud/check");
    assert_eq!(af.authorization(), "Bearer k1");
    let client = CbrApiClient::builder().base_url("http://local").api_key("k").build().unwrap();
    assert_eq!(client.antifraud().check_url(), "http://local/v1/antifraud/check");
}

#[test]
fn rate_limited_checks_retry_three_times() {
    let mut retries = 0;
    let mut waits = vec![];
    loop {
        match check_step(retries, 429, None) {
            CheckStep::Retry { retries: next, backoff_ms } => {
                assert_eq!(next, retries + 1);
                waits.push(backoff_ms);
                retries = next;
            }
            CheckStep::RateLimited => break,
            other => panic!("unexpected step {:?}", other),
        }
    }
    assert_eq!(retries, 3);
    assert_eq!(waits, vec![500, 1_000, 1_500]);
}

#[test]
fn stub_services_answer() {
    let client = CbrApiClient::builder().api_key("k").build().unwrap();
    assert!(client.tspi().ping().unwrap());
    assert!(client.ebs().ping().unwrap());
}

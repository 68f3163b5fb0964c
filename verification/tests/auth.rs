use cryptotrace::api::auth::{admission, RateLimiter};
use cryptotrace::api::errors::ApiError;

const SEC: u64 = 1_000_000_000;

#[test]
fn limiter_admits_up_to_limit_then_refuses() {
    let mut rl = RateLimiter::new(3);
    assert_eq!(rl.check_at(0), Ok(()));
    assert_eq!(rl.check_at(10 * SEC), Ok(()));
    assert_eq!(rl.check_at(20 * SEC), Ok(()));
    // oldest admission is 30 s old: wait 30 more seconds
    assert_eq!(rl.check_at(30 * SEC), Err(30));
    // 59.5 s after the oldest admission: one second left
    assert_eq!(rl.check_at(59 * SEC + SEC / 2), Err(1));
}

#[test]
fn limiter_forgets_admissions_after_a_minute() {
    let mut rl = RateLimiter::new(2);
    assert_eq!(rl.check_at(5 * SEC), Ok(()));
    assert_eq!(rl.check_at(6 * SEC), Ok(()));
    assert_eq!(rl.check_at(7 * SEC), Err(58));
    // exactly a minute after the first admission it no longer counts
    assert_eq!(rl.check_at(65 * SEC), Ok(()));
    assert_eq!(rl.check_at(65 * SEC), Err(1));
}

#[test]
fn waiting_retry_after_is_enough() {
    let mut rl = RateLimiter::new(1);
    assert_eq!(rl.check_at(3 * SEC + 200), Ok(()));
    let wait = match rl.check_at(20 * SEC) {
        Err(s) => s,
        Ok(()) => panic!("second request in the minute must be refused"),
    };
    assert_eq!(wait, 44);
    assert_eq!(rl.check_at(20 * SEC + wait * SEC), Ok(()));
}

#[test]
fn zero_limit_refuses_everything() {
    let mut rl = RateLimiter::new(0);
    assert_eq!(rl.check_at(0), Err(60));
    assert_eq!(rl.check_at(1000 * SEC), Err(60));
}

#[test]
fn limiter_check_uses_clock() {
    let mut rl = RateLimiter::new(2);
    assert_eq!(rl.check(), Ok(()));
    assert_eq!(rl.check(), Ok(()));
    match rl.check() {
        Err(s) => assert!((1..=60).contains(&s)),
        Ok(()) => panic!("third request in the minute must be refused"),
    }
}

const UNAUTHORIZED: &str =
    "Missing or invalid API key. Provide via Authorization: Bearer <key> or X-API-Key: <key> header.";

#[test]
fn rate_limit_refusal_comes_first() {
    assert_eq!(
        admission(Some(Err(12)), Some("k"), Some("Bearer k"), None),
        Err(ApiError::RateLimited { retry_after_seconds: 12 })
    );
}

#[test]
fn no_key_configured_admits() {
    assert_eq!(admission(None, None, None, None), Ok(()));
    assert_eq!(admission(Some(Ok(())), None, Some("Bearer whatever"), None), Ok(()));
}

#[test]
fn bearer_or_header_key_admits() {
    assert_eq!(admission(Some(Ok(())), Some("secret"), Some("Bearer secret"), None), Ok(()));
    assert_eq!(admission(None, Some("secret"), None, Some("secret")), Ok(()));
    // the key may come in either header
    assert_eq!(admission(None, Some("secret"), Some("Basic abc"), Some("secret")), Ok(()));
    assert_eq!(admission(None, Some("secret"), Some("Bearer wrong"), Some("secret")), Ok(()));
    assert_eq!(admission(None, Some("secret"), Some("Bearer secret"), Some("wrong")), Ok(()));
}

#[test]
fn wrong_or_missing_key_is_unauthorized() {
    let refused = Err(ApiError::Unauthorized(UNAUTHORIZED.to_string()));
    assert_eq!(admission(None, Some("secret"), None, None), refused);
    assert_eq!(admission(None, Some("secret"), Some("Bearer wrong"), Some("wrong")), refused);
    assert_eq!(admission(None, Some("secret"), Some("bearer secret"), None), refused);
    assert_eq!(admission(None, Some("secret"), None, Some("Secret")), refused);
}

use gas_saver_eth::limiter::RateLimiter;

#[test]
fn bucket_starts_full_and_never_overdraws() {
    let mut bucket = RateLimiter::new(10, 5, 0);
    for _ in 0..5 {
        assert!(bucket.tokens <= bucket.max_tokens);
        assert!(bucket.check_and_consume(0));
    }
    assert!(!bucket.check_and_consume(0));
    assert_eq!(bucket.tokens, 0);
}

#[test]
fn refill_credits_whole_seconds_and_caps_at_max() {
    let mut bucket = RateLimiter::new(10, 20, 0);
    for _ in 0..20 {
        assert!(bucket.check_and_consume(500_000_000));
    }
    assert!(!bucket.check_and_consume(900_000_000));
    // 2.5 seconds elapsed: 2 whole seconds at rate 10 credit 20 tokens,
    // capped at max 20.
    assert!(bucket.check_and_consume(2_500_000_000));
    assert_eq!(bucket.tokens, 19);
    assert!(bucket.tokens <= bucket.max_tokens);
}

#[test]
fn sub_second_elapse_never_refills() {
    let mut bucket = RateLimiter::new(1000, 1, 0);
    assert!(bucket.check_and_consume(0));
    assert!(!bucket.check_and_consume(900_000_000));
    // exactly one second is not strictly more than one second
    assert!(!bucket.check_and_consume(1_000_000_000));
    assert!(bucket.check_and_consume(1_000_000_001));
}

#[test]
fn zero_rate_or_zero_cap_disables_the_bucket() {
    let mut empty = RateLimiter::new(5, 0, 0);
    assert!(!empty.check_and_consume(0));
    assert!(!empty.check_and_consume(10_000_000_000));

    let mut unfilled = RateLimiter::new(0, 2, 0);
    assert!(unfilled.check_and_consume(0));
    assert!(unfilled.check_and_consume(0));
    assert!(!unfilled.check_and_consume(30_000_000_000));
}

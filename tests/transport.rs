use wakeup_gateway::transport::{
    backoff_delay_ms, classify_status, normalize_local_gateway_base_url, get_backoff_delay_ms, next_retry_step, resolve_transport_mode,
    wakeup_requires_official_ls, AttemptOutcome, BaseUrlOrder, RetryStep, TransportMode,
};

#[test]
fn backoff_schedule() {
    assert_eq!(backoff_delay_ms(0, 42), 0);
    assert_eq!(backoff_delay_ms(1, 99), 0);
    assert_eq!(backoff_delay_ms(2, 0), 500);
    assert_eq!(backoff_delay_ms(2, 99), 599);
    assert_eq!(backoff_delay_ms(3, 0), 1000);
    assert_eq!(backoff_delay_ms(3, 99), 1099);
    assert_eq!(backoff_delay_ms(4, 10), 2010);
    assert_eq!(backoff_delay_ms(5, 10), 4000);
    assert_eq!(backoff_delay_ms(60, 99), 4000);
    assert_eq!(backoff_delay_ms(u64::MAX, 99), 4000);
}

#[test]
fn random_backoff_stays_in_range() {
    for _ in 0..200 {
        let d2 = get_backoff_delay_ms(2);
        assert!((500..600).contains(&d2));
        let d3 = get_backoff_delay_ms(3);
        assert!((1000..1100).contains(&d3));
        assert_eq!(get_backoff_delay_ms(1), 0);
        assert!(get_backoff_delay_ms(9) <= 4000);
    }
}

#[test]
fn statuses_are_classified() {
    assert_eq!(classify_status(200), AttemptOutcome::Success);
    assert_eq!(classify_status(401), AttemptOutcome::Unauthorized);
    assert_eq!(classify_status(403), AttemptOutcome::Forbidden);
    assert_eq!(classify_status(429), AttemptOutcome::Retryable);
    assert_eq!(classify_status(503), AttemptOutcome::Retryable);
    assert_eq!(classify_status(400), AttemptOutcome::Rejected);
}

#[test]
fn retry_steps() {
    assert_eq!(next_retry_step(0, 1, 3, AttemptOutcome::Retryable, 7), RetryStep::Retry { base_index: 0, attempt: 2, delay_ms: 507 });
    assert_eq!(next_retry_step(0, 2, 3, AttemptOutcome::Retryable, 7), RetryStep::Retry { base_index: 1, attempt: 1, delay_ms: 0 });
    assert_eq!(next_retry_step(2, 2, 3, AttemptOutcome::Retryable, 7), RetryStep::Exhausted);
    assert_eq!(next_retry_step(1, 1, 3, AttemptOutcome::Success, 7), RetryStep::Succeeded { base_index: 1 });
    assert_eq!(next_retry_step(0, 1, 3, AttemptOutcome::Unauthorized, 7), RetryStep::AuthExpired);
    assert_eq!(next_retry_step(0, 1, 3, AttemptOutcome::Forbidden, 7), RetryStep::Forbidden);
    assert_eq!(next_retry_step(0, 1, 3, AttemptOutcome::Rejected, 7), RetryStep::Retry { base_index: 1, attempt: 1, delay_ms: 0 });
    assert_eq!(next_retry_step(2, 1, 3, AttemptOutcome::Rejected, 7), RetryStep::Exhausted);
}

#[test]
fn successful_base_moves_to_front() {
    let urls = vec!["a".to_string(), "b".to_string(), "a".to_string(), "c".to_string()];
    let mut order = BaseUrlOrder::new(&urls);
    assert_eq!(order.order(), vec!["a".to_string(), "b".to_string(), "c".to_string()]);
    order.promote("c");
    assert_eq!(order.order(), vec!["c".to_string(), "a".to_string(), "b".to_string()]);
    order.promote("c");
    assert_eq!(order.order(), vec!["c".to_string(), "a".to_string(), "b".to_string()]);
    order.promote("zzz");
    assert_eq!(order.order(), vec!["c".to_string(), "a".to_string(), "b".to_string()]);
}

#[test]
fn transport_mode_switch() {
    assert_eq!(resolve_transport_mode(None), TransportMode::Gateway);
    assert_eq!(resolve_transport_mode(Some("  Client-Gateway ")), TransportMode::Gateway);
    assert_eq!(resolve_transport_mode(Some("GATEWAY")), TransportMode::Gateway);
    assert_eq!(resolve_transport_mode(Some("legacy")), TransportMode::LegacyDirect);
    assert!(wakeup_requires_official_ls(None));
    assert!(!wakeup_requires_official_ls(Some("direct")));
}

#[test]
fn local_gateway_urls_name_localhost() {
    assert_eq!(normalize_local_gateway_base_url("https://127.0.0.1:4433"), "https://localhost:4433");
    assert_eq!(normalize_local_gateway_base_url("http://127.0.0.1:80/x"), "http://localhost:80/x");
    assert_eq!(normalize_local_gateway_base_url("https://example.com"), "https://example.com");
}

use spire::middleware::check::CheckResult;
use spire::middleware::circuit_breaker::{BreakerState, CircuitBreaker, FailureRate};

const T0: u128 = 1_000_000_000_000;
const MILLI: u128 = 1_000_000;

fn default_breaker() -> CircuitBreaker {
    CircuitBreaker::new(
        FailureRate { numerator: 1, denominator: 2 },
        5,
        100_000_000,
        2,
        10,
    )
}

#[test]
fn initial_state_is_closed_and_allows_requests() {
    let mut cb = default_breaker();
    assert_eq!(
        cb.state,
        BreakerState::Closed {
            failures: 0,
            total_requests: 0,
            consecutive_failures: 0,
        }
    );
    assert!(cb.is_call_allowed());
}

#[test]
fn trip_on_consecutive_failures() {
    let mut cb = default_breaker();
    cb.consecutive_failure_threshold = 3;

    for _ in 0..cb.consecutive_failure_threshold {
        assert!(cb.is_call_allowed_at(T0));
        cb.record_failure_at(T0);
    }

    assert!(!matches!(cb.state, BreakerState::Closed { .. }));
    assert!(matches!(cb.state, BreakerState::Open { .. }));
    assert!(!cb.is_call_allowed_at(T0));
}

#[test]
fn trip_on_failure_rate_threshold_corrected() {
    let mut cb = default_breaker();
    cb.min_requests_for_rate_calculation = 10;
    cb.failure_rate_threshold = FailureRate { numerator: 1, denominator: 2 };

    for _ in 0..4 {
        cb.record_failure_at(T0);
    }
    for _ in 0..5 {
        cb.record_success();
    }
    if let BreakerState::Closed {
        failures,
        total_requests,
        ..
    } = cb.state
    {
        assert_eq!(total_requests, 9);
        assert_eq!(failures, 4);
    } else {
        panic!("The circuit breaker should be in the Closed state before the threshold is triggered");
    }
    assert!(
        cb.is_call_allowed_at(T0),
        "Should not trip when failure rate is 4/9 (≈0.44)"
    );
    cb.record_failure_at(T0);
    assert!(
        !cb.is_call_allowed_at(T0),
        "Should trip after 10 requests with a 50% failure rate"
    );

    assert!(
        matches!(cb.state, BreakerState::Open { .. }),
        "State should be Open"
    );
}

#[test]
fn success_resets_consecutive_failures() {
    let mut cb = default_breaker();
    cb.consecutive_failure_threshold = 5;

    for _ in 0..cb.consecutive_failure_threshold - 1 {
        cb.record_failure_at(T0);
    }

    cb.record_success();

    if let BreakerState::Closed {
        consecutive_failures,
        ..
    } = cb.state
    {
        assert_eq!(consecutive_failures, 0);
    } else {
        panic!("State should be Closed");
    }

    cb.record_failure_at(T0);
    assert!(cb.is_call_allowed_at(T0));
    assert!(matches!(cb.state, BreakerState::Closed { .. }));
}

#[test]
fn open_to_half_open_after_duration() {
    let mut cb = default_breaker();
    cb.open_duration_nanos = 50_000_000;
    cb.trip(T0);

    assert!(!cb.is_call_allowed_at(T0));
    assert!(matches!(cb.state, BreakerState::Open { .. }));

    let later = T0 + cb.open_duration_nanos as u128;

    assert!(cb.is_call_allowed_at(later));
    assert!(matches!(cb.state, BreakerState::HalfOpen { .. }));
}

#[test]
fn half_open_success_probe_closes_breaker() {
    let mut cb = default_breaker();
    cb.state = BreakerState::HalfOpen {
        success_probes: 0,
        total_probes: 0,
    };

    assert!(cb.is_call_allowed_at(T0));
    cb.record_success();

    assert!(matches!(cb.state, BreakerState::Closed { .. }));
    assert!(cb.is_call_allowed_at(T0));
}

#[test]
fn half_open_failed_probe_opens_breaker() {
    let mut cb = default_breaker();
    cb.state = BreakerState::HalfOpen {
        success_probes: 0,
        total_probes: 0,
    };
    cb.open_duration_nanos = 50_000_000;

    assert!(cb.is_call_allowed_at(T0));
    cb.record_failure_at(T0);

    assert!(matches!(cb.state, BreakerState::Open { .. }));
    assert!(!cb.is_call_allowed_at(T0));
}

#[test]
fn half_open_allows_limited_probes() {
    let mut cb = default_breaker();
    cb.half_open_max_requests = 3;
    cb.state = BreakerState::HalfOpen {
        success_probes: 0,
        total_probes: 0,
    };

    for _ in 0..cb.half_open_max_requests - 1 {
        assert!(cb.is_call_allowed_at(T0), "Should allow probe");

        if let BreakerState::HalfOpen {
            ref mut total_probes,
            ..
        } = &mut cb.state
        {
            *total_probes += 1;
        }
    }

    assert!(cb.is_call_allowed_at(T0), "Should allow the last probe");
    if let BreakerState::HalfOpen {
        ref mut total_probes,
        ..
    } = &mut cb.state
    {
        *total_probes += 1;
    }

    assert!(!cb.is_call_allowed_at(T0), "Should deny after max probes");
}

#[test]
fn open_state_stays_closed_to_calls_until_cooldown_ends() {
    let mut cb = default_breaker();
    cb.trip(T0);
    assert_eq!(cb.state, BreakerState::Open { opens_at: T0 + 100 * MILLI });
    assert!(!cb.is_call_allowed_at(T0 + 100 * MILLI - 1));
    assert_eq!(cb.state, BreakerState::Open { opens_at: T0 + 100 * MILLI });
    assert!(cb.is_call_allowed_at(T0 + 100 * MILLI));
    assert_eq!(cb.state, BreakerState::HalfOpen { success_probes: 0, total_probes: 0 });
}

#[test]
fn rate_is_not_checked_below_the_request_volume() {
    let mut cb = default_breaker();
    cb.consecutive_failure_threshold = 100;
    for _ in 0..9 {
        cb.record_failure_at(T0);
    }
    assert_eq!(
        cb.state,
        BreakerState::Closed { failures: 9, total_requests: 9, consecutive_failures: 9 }
    );
    cb.record_failure_at(T0);
    assert_eq!(cb.state, BreakerState::Open { opens_at: T0 + 100 * MILLI });
}

#[test]
fn record_outcome_by_status() {
    let mut cb = default_breaker();
    cb.record_outcome_at(Some(200), T0);
    cb.record_outcome_at(Some(299), T0);
    cb.record_outcome_at(Some(500), T0);
    cb.record_outcome_at(None, T0);
    cb.record_outcome_at(Some(300), T0);
    assert_eq!(
        cb.state,
        BreakerState::Closed { failures: 3, total_requests: 5, consecutive_failures: 3 }
    );
}

#[test]
fn check_request_denies_with_retry_after() {
    let mut cb = default_breaker();
    assert!(matches!(cb.check_request_at(T0), CheckResult::Allowed));
    cb.trip(T0);
    match cb.check_request_at(T0) {
        CheckResult::Denied(d) => {
            assert_eq!(d.status, 503);
            assert_eq!(d.body, "Service unavailable");
            assert_eq!(d.headers.get("Retry-After"), Some(&b"30".to_vec()));
            assert_eq!(d.headers.len(), 1);
        }
        CheckResult::Allowed => panic!("an open breaker must refuse"),
    }
}

#[test]
fn open_state_ignores_outcomes() {
    let mut cb = default_breaker();
    cb.trip(T0);
    let before = cb.state;
    cb.record_success();
    cb.record_failure_at(T0 + 1);
    assert_eq!(cb.state, before);
}

#[test]
fn state_info_describes_the_state() {
    let mut cb = default_breaker();
    assert_eq!(cb.state_info(), "Closed { failures: 0, total_requests: 0, consecutive_failures: 0 }");
    cb.state = BreakerState::HalfOpen { success_probes: 1, total_probes: 2 };
    assert_eq!(cb.state_info(), "HalfOpen { success_probes: 1, total_probes: 2 }");
    cb.state = BreakerState::Open { opens_at: 1234567890123456789012 };
    assert_eq!(cb.state_info(), "Open { opens_at: 1234567890123456789012 }");
}

#[test]
fn reset_to_closed_clears_counters() {
    let mut cb = default_breaker();
    cb.record_failure_at(T0);
    cb.reset_to_closed();
    assert_eq!(
        cb.state,
        BreakerState::Closed { failures: 0, total_requests: 0, consecutive_failures: 0 }
    );
}

#[test]
fn can_record_until_a_counter_is_full() {
    let mut cb = default_breaker();
    assert!(cb.can_record());
    cb.state = BreakerState::Closed { failures: 0, total_requests: u64::MAX, consecutive_failures: 0 };
    assert!(!cb.can_record());
    cb.state = BreakerState::Open { opens_at: 0 };
    assert!(cb.can_record());
}

#[test]
fn clock_driven_check_and_outcome() {
    let mut cb = default_breaker();
    assert!(matches!(cb.check_request(), CheckResult::Allowed));
    cb.record_outcome(Some(502));
    cb.record_outcome(Some(204));
    assert_eq!(
        cb.state,
        BreakerState::Closed { failures: 1, total_requests: 2, consecutive_failures: 0 }
    );
}

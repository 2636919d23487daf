use gateway::binary64::Binary64;
use gateway::circuit_breaker::{CircuitBreaker, CircuitState, Metrics, Window};
use gateway::config::CircuitBreakerConfig;
use gateway::time::Duration;
use std::time::Instant;

fn number(x: f64) -> Binary64 {
    Binary64 { bits: x.to_bits() }
}

fn test_config() -> CircuitBreakerConfig {
    CircuitBreakerConfig {
        error_threshold: number(0.5),
        request_volume_threshold: 10,
        sleep_window_ms: 100,
        slow_call_threshold_ms: 500,
        slow_call_ratio_threshold: number(0.8),
    }
}

fn wait(ms: u64) {
    let start = Instant::now();
    while start.elapsed() < std::time::Duration::from_millis(ms) {}
}

#[test]
fn test_circuit_breaker_starts_closed() {
    let mut cb = CircuitBreaker::new(test_config());
    assert_eq!(cb.state(), CircuitState::Closed);
    assert!(cb.allow_request());
}

#[test]
fn test_circuit_breaker_opens_on_high_error_rate() {
    let mut cb = CircuitBreaker::new(test_config());

    for _ in 0..15 {
        cb.record_error(Duration::from_millis(10));
    }

    assert_eq!(cb.state(), CircuitState::Open);
    assert!(!cb.allow_request());
}

#[test]
fn test_circuit_breaker_stays_closed_below_threshold() {
    let mut cb = CircuitBreaker::new(test_config());

    for _ in 0..5 {
        cb.record_error(Duration::from_millis(10));
    }
    for _ in 0..10 {
        cb.record_success(Duration::from_millis(10));
    }

    assert_eq!(cb.state(), CircuitState::Closed);
    assert!(cb.allow_request());
}

#[test]
fn test_circuit_breaker_half_open_after_sleep_window() {
    let config = CircuitBreakerConfig {
        sleep_window_ms: 50,
        ..test_config()
    };
    let mut cb = CircuitBreaker::new(config);

    for _ in 0..15 {
        cb.record_error(Duration::from_millis(10));
    }
    assert_eq!(cb.state(), CircuitState::Open);

    wait(60);

    assert_eq!(cb.state(), CircuitState::HalfOpen);
    assert!(cb.allow_request());
}

#[test]
fn test_metrics_tracking() {
    let mut cb = CircuitBreaker::new(test_config());

    for _ in 0..7 {
        cb.record_success(Duration::from_millis(10));
    }
    for _ in 0..3 {
        cb.record_error(Duration::from_millis(10));
    }

    let (total, errors, slow) = cb.metrics();
    assert_eq!(total, 10);
    assert_eq!(errors, 3);
    assert_eq!(slow, 0);
}

#[test]
fn test_slow_call_detection() {
    let config = CircuitBreakerConfig {
        slow_call_threshold_ms: 100,
        slow_call_ratio_threshold: number(0.5),
        request_volume_threshold: 5,
        ..test_config()
    };
    let mut cb = CircuitBreaker::new(config);

    for _ in 0..6 {
        cb.record_success(Duration::from_millis(200));
    }

    let (total, _errors, slow) = cb.metrics();
    assert_eq!(total, 6);
    assert_eq!(slow, 6);
}

#[test]
fn test_reset() {
    let mut cb = CircuitBreaker::new(test_config());

    for _ in 0..15 {
        cb.record_error(Duration::from_millis(10));
    }
    assert_eq!(cb.state(), CircuitState::Open);

    cb.reset();
    assert_eq!(cb.state(), CircuitState::Closed);
    let (total, errors, _) = cb.metrics();
    assert_eq!(total, 0);
    assert_eq!(errors, 0);
}

#[test]
fn slow_calls_alone_open_the_circuit() {
    let mut cb = CircuitBreaker::new(test_config());
    for _ in 0..9 {
        cb.record_success(Duration::from_millis(500));
    }
    assert_eq!(cb.state(), CircuitState::Closed);
    cb.record_success(Duration::from_millis(499));
    assert_eq!(cb.metrics(), (10, 0, 9));
    assert_eq!(cb.state(), CircuitState::Open);
}

#[test]
fn a_slow_failure_counts_twice() {
    let mut cb = CircuitBreaker::new(test_config());
    cb.record_error(Duration::from_millis(500));
    cb.record_error(Duration::from_millis(10));
    assert_eq!(cb.metrics(), (2, 2, 1));
}

#[test]
fn exactly_half_of_the_calls_open_the_circuit() {
    let mut cb = CircuitBreaker::new(test_config());
    for _ in 0..6 {
        cb.record_success(Duration::from_millis(1));
    }
    for _ in 0..5 {
        cb.record_error(Duration::from_millis(1));
    }
    assert_eq!(cb.state(), CircuitState::Closed);
    cb.record_error(Duration::from_millis(1));
    assert_eq!(cb.state(), CircuitState::Open);
}

#[test]
fn open_circuit_waits_for_the_whole_window() {
    let now = Instant::now();
    let mut cb = CircuitBreaker::new(test_config());
    for _ in 0..10 {
        cb.record_error(Duration::from_millis(1));
    }
    assert!(!cb.allow_request_at(Duration::from_millis(0), now));
    assert_eq!(cb.open_time, Some(now));
    let just_before = Duration { nanos: 99_999_999 };
    assert!(!cb.allow_request_at(just_before, now));
    assert_eq!(cb.state, CircuitState::Open);
    assert!(cb.allow_request_at(Duration::from_millis(100), now));
    assert_eq!(cb.state, CircuitState::HalfOpen);
    assert_eq!(cb.half_open_attempts, 1);
    assert_eq!(cb.metrics(), (0, 0, 0));
}

fn half_open() -> (CircuitBreaker, Instant) {
    let now = Instant::now();
    let mut cb = CircuitBreaker::new(test_config());
    for _ in 0..10 {
        cb.record_error(Duration::from_millis(1));
    }
    cb.transition_at(Duration::from_millis(0), now);
    cb.transition_at(Duration::from_millis(100), now);
    assert_eq!(cb.state, CircuitState::HalfOpen);
    (cb, now)
}

#[test]
fn half_open_circuit_lets_five_requests_through() {
    let (mut cb, now) = half_open();
    for _ in 0..5 {
        assert!(cb.allow_request_at(Duration::from_millis(0), now));
    }
    assert!(!cb.allow_request_at(Duration::from_millis(0), now));
    assert_eq!(cb.state, CircuitState::Open);
}

#[test]
fn half_open_circuit_closes_after_four_successes() {
    let (mut cb, now) = half_open();
    for i in 0..5 {
        assert!(cb.allow_request_at(Duration::from_millis(0), now));
        if i < 4 {
            cb.record_success(Duration::from_millis(1));
        } else {
            cb.record_error(Duration::from_millis(1));
        }
    }
    assert!(cb.allow_request_at(Duration::from_millis(0), now));
    assert_eq!(cb.state, CircuitState::Closed);
    assert_eq!(cb.open_time, None);
    assert_eq!(cb.metrics(), (0, 0, 0));
}

#[test]
fn half_open_circuit_opens_again_after_three_successes() {
    let (mut cb, now) = half_open();
    for i in 0..5 {
        assert!(cb.allow_request_at(Duration::from_millis(0), now));
        if i < 3 {
            cb.record_success(Duration::from_millis(1));
        } else {
            cb.record_error(Duration::from_millis(1));
        }
    }
    assert!(!cb.allow_request_at(Duration::from_millis(0), now));
    assert_eq!(cb.state, CircuitState::Open);
    assert_eq!(cb.open_time, Some(now));
}

#[test]
fn calls_that_end_while_the_circuit_is_open_are_not_counted() {
    let mut cb = CircuitBreaker::new(test_config());
    for _ in 0..10 {
        cb.record_error(Duration::from_millis(1));
    }
    assert_eq!(cb.state(), CircuitState::Open);
    cb.record_error(Duration::from_millis(1));
    cb.record_success(Duration::from_millis(1));
    assert_eq!(cb.metrics(), (10, 10, 0));
}

#[test]
fn a_volume_of_zero_needs_a_call_all_the_same() {
    let config = CircuitBreakerConfig {
        request_volume_threshold: 0,
        error_threshold: number(0.0),
        slow_call_ratio_threshold: number(0.0),
        ..test_config()
    };
    let mut cb = CircuitBreaker::new(config);
    assert_eq!(cb.state(), CircuitState::Closed);
    cb.record_success(Duration::from_millis(1));
    assert_eq!(cb.state(), CircuitState::Open);
}

#[test]
fn thresholds_that_are_no_numbers_are_never_reached() {
    let config = CircuitBreakerConfig {
        error_threshold: number(f64::NAN),
        slow_call_ratio_threshold: number(1.5),
        ..test_config()
    };
    let mut cb = CircuitBreaker::new(config);
    for _ in 0..20 {
        cb.record_error(Duration::from_millis(1000));
    }
    assert_eq!(cb.state(), CircuitState::Closed);
}

#[test]
fn new_settings_keep_the_counts() {
    let mut cb = CircuitBreaker::new(test_config());
    for _ in 0..5 {
        cb.record_error(Duration::from_millis(1));
    }
    assert_eq!(cb.state(), CircuitState::Closed);
    cb.update_config(CircuitBreakerConfig {
        request_volume_threshold: 5,
        ..test_config()
    });
    assert_eq!(cb.metrics(), (5, 5, 0));
    assert_eq!(cb.state(), CircuitState::Open);
}

#[test]
fn states_have_names() {
    assert_eq!(CircuitState::Closed.to_string(), "Closed");
    assert_eq!(CircuitState::Open.to_string(), "Open");
    assert_eq!(CircuitState::HalfOpen.to_string(), "HalfOpen");
}

#[test]
fn counters_start_again_after_their_last_value() {
    let mut m = Metrics::new();
    m.total = u64::MAX;
    m.record_error(Duration::from_millis(1));
    assert_eq!((m.total(), m.error_count(), m.slow_call_count()), (0, 1, 0));
    m.record_slow_call(true);
    assert_eq!((m.total(), m.error_count(), m.slow_call_count()), (1, 2, 1));
    m.reset();
    assert_eq!((m.total(), m.error_count(), m.slow_call_count()), (0, 0, 0));
    let mut w = Window::new();
    w.metrics.record_success(Duration::from_millis(1));
    assert_eq!(w.metrics.total(), 1);
    w.reset();
    assert_eq!(w.metrics.total(), 0);
}

use gateway::admin_api::{
    get_global_config, get_service_status, list_services, reset_circuit_breaker,
    update_global_config, update_service_config, ApiResponse, UpdateCircuitBreakerRequest,
    UpdateGlobalConfigRequest, UpdateServiceConfigRequest,
};
use gateway::async_logger::LogSinkConfig;
use gateway::binary64::Binary64;
use gateway::circuit_breaker::CircuitState;
use gateway::config::GatewayConfig;
use gateway::state::AppState;
use gateway::time::Duration;
use gateway::trace_sampler::SamplerConfig;

fn number(x: f64) -> Binary64 {
    Binary64 { bits: x.to_bits() }
}

fn no_update() -> UpdateServiceConfigRequest {
    UpdateServiceConfigRequest {
        timeout_ms: None,
        canary_ratio: None,
        stable_endpoints: None,
        canary_endpoints: None,
        circuit_breaker: None,
    }
}

fn fail(state: &mut AppState, name: &str, times: u64) {
    let mut cb = state.get_circuit_breaker(name).unwrap();
    for _ in 0..times {
        cb.record_error(Duration::from_millis(1));
    }
    state.set_circuit_breaker(name, cb);
}

#[test]
fn the_gateway_starts_with_two_services() {
    let (state, _, worker) = AppState::new(GatewayConfig::default());
    assert_eq!(state.global_timeout_ms(), 5000);
    assert_eq!(state.max_body_size, 100 * 1024);
    assert!(matches!(worker.sink, LogSinkConfig::Stdout));
    assert_eq!(state.config.listen_addr, "0.0.0.0:8080");
    assert_eq!(state.config.admin_addr, "0.0.0.0:9090");
    let user = state.get_service("user-service").unwrap();
    assert_eq!(user.name, "user-service");
    assert_eq!(user.stable_cluster.endpoints, vec!["http://127.0.0.1:8081"]);
    assert_eq!(user.canary_cluster.as_ref().unwrap().endpoints, vec!["http://127.0.0.1:8082"]);
    assert_eq!(user.canary_ratio.bits, 0.1f64.to_bits());
    assert_eq!(user.timeout(), Duration::from_millis(3000));
    let order = state.get_service("order-service").unwrap();
    assert_eq!(order.canary_ratio.bits, 0.2f64.to_bits());
    assert_eq!(order.stable_cluster.endpoints, vec!["http://127.0.0.1:8091"]);
    assert_eq!(order.circuit_breaker.error_threshold.bits, 0.5f64.to_bits());
    assert_eq!(order.circuit_breaker.slow_call_ratio_threshold.bits, 0.8f64.to_bits());
    assert_eq!(order.circuit_breaker.request_volume_threshold, 20);
    assert_eq!(order.circuit_breaker.sleep_window(), Duration::from_millis(5000));
    assert_eq!(order.circuit_breaker.slow_call_threshold(), Duration::from_millis(1000));
    assert!(state.get_service("other").is_none());
    assert!(state.get_circuit_breaker("other").is_none());
    for name in ["user-service", "order-service"] {
        let cb = state.get_circuit_breaker(name).unwrap();
        assert_eq!(cb.state, CircuitState::Closed);
        assert_eq!(cb.metrics(), (0, 0, 0));
    }
}

#[test]
fn services_are_listed_once_each() {
    let (state, _, _) = AppState::new(GatewayConfig::default());
    let answer = list_services(&state);
    assert!(answer.success);
    assert_eq!(answer.message, None);
    let mut names = answer.data.unwrap();
    names.sort();
    assert_eq!(names, vec!["order-service", "user-service"]);
}

#[test]
fn the_status_of_a_service() {
    let (mut state, _, _) = AppState::new(GatewayConfig::default());
    let (code, answer) = get_service_status(&mut state, "user-service");
    assert_eq!(code, 200);
    let status = answer.data.unwrap();
    assert_eq!(status.name, "user-service");
    assert_eq!(status.circuit_state, "Closed");
    assert_eq!(status.error_rate.bits, 0.0f64.to_bits());
    assert_eq!(status.config.timeout_ms, 3000);

    let mut cb = state.get_circuit_breaker("user-service").unwrap();
    for _ in 0..2 {
        cb.record_success(Duration::from_millis(2000));
    }
    cb.record_error(Duration::from_millis(1));
    state.set_circuit_breaker("user-service", cb);
    let (_, answer) = get_service_status(&mut state, "user-service");
    let status = answer.data.unwrap();
    assert_eq!((status.total_requests, status.error_count, status.slow_call_count), (3, 1, 2));
    assert_eq!(status.error_rate.bits, (1.0f64 / 3.0).to_bits());

    fail(&mut state, "user-service", 20);
    let (_, answer) = get_service_status(&mut state, "user-service");
    let status = answer.data.unwrap();
    assert_eq!(status.circuit_state, "Open");
    assert_eq!(status.total_requests, 23);
    assert_eq!(state.get_circuit_breaker("user-service").unwrap().state, CircuitState::Open);
}

#[test]
fn unknown_services_are_not_found() {
    let (mut state, _, _) = AppState::new(GatewayConfig::default());
    let (code, answer) = get_service_status(&mut state, "nobody");
    assert_eq!(code, 404);
    assert!(!answer.success);
    assert!(answer.data.is_none());
    assert_eq!(answer.message, Some("Service not found".to_string()));
    let (code, answer) = update_service_config(&mut state, "nobody", no_update());
    assert_eq!((code, answer.success), (404, false));
    assert_eq!(answer.message, Some("Service not found".to_string()));
    let (code, answer) = reset_circuit_breaker(&mut state, "nobody");
    assert_eq!((code, answer.success), (404, false));
    assert_eq!(answer.message, Some("Service not found".to_string()));
    assert!(state.get_service("nobody").is_none());
}

#[test]
fn a_service_without_a_breaker_is_unknown_in_state() {
    let (state, _, _) = AppState::new(GatewayConfig::default());
    let (mut other, _, _) = AppState::new(GatewayConfig::default());
    other.circuit_breakers = dashmap::DashMap::new();
    other.config = state.config;
    let (code, answer) = get_service_status(&mut other, "user-service");
    assert_eq!(code, 200);
    let status = answer.data.unwrap();
    assert_eq!(status.circuit_state, "Unknown");
    assert_eq!(status.total_requests, 0);
    assert_eq!(status.error_rate.bits, 0);
}

#[test]
fn updates_change_what_they_name() {
    let (mut state, _, _) = AppState::new(GatewayConfig::default());
    fail(&mut state, "user-service", 3);
    let payload = UpdateServiceConfigRequest {
        timeout_ms: Some(100),
        canary_ratio: Some(number(0.75)),
        stable_endpoints: Some(vec!["s1".to_string(), "s2".to_string()]),
        canary_endpoints: Some(vec!["c".to_string()]),
        circuit_breaker: Some(UpdateCircuitBreakerRequest {
            error_threshold: Some(number(0.25)),
            request_volume_threshold: Some(3),
            sleep_window_ms: None,
            slow_call_threshold_ms: Some(7),
            slow_call_ratio_threshold: None,
        }),
    };
    let (code, answer) = update_service_config(&mut state, "user-service", payload);
    assert_eq!(code, 200);
    let given = answer.data.unwrap();
    let kept = state.get_service("user-service").unwrap();
    for config in [given, kept] {
        assert_eq!(config.name, "user-service");
        assert_eq!(config.timeout_ms, 100);
        assert_eq!(config.canary_ratio.bits, 0.75f64.to_bits());
        assert_eq!(config.stable_cluster.endpoints, vec!["s1", "s2"]);
        assert_eq!(config.canary_cluster.unwrap().endpoints, vec!["c"]);
        assert_eq!(config.circuit_breaker.error_threshold.bits, 0.25f64.to_bits());
        assert_eq!(config.circuit_breaker.request_volume_threshold, 3);
        assert_eq!(config.circuit_breaker.sleep_window_ms, 5000);
        assert_eq!(config.circuit_breaker.slow_call_threshold_ms, 7);
        assert_eq!(config.circuit_breaker.slow_call_ratio_threshold.bits, 0.8f64.to_bits());
    }
    let mut cb = state.get_circuit_breaker("user-service").unwrap();
    assert_eq!(cb.metrics(), (3, 3, 0));
    assert_eq!(cb.state(), CircuitState::Open);
    let untouched = state.get_circuit_breaker("order-service").unwrap();
    assert_eq!(untouched.config.request_volume_threshold, 20);
}

#[test]
fn canary_endpoints_need_a_canary_cluster() {
    let (mut state, _, _) = AppState::new(GatewayConfig::default());
    let mut config = state.get_service("user-service").unwrap();
    config.canary_cluster = None;
    state.update_service_config("user-service", config);
    let payload = UpdateServiceConfigRequest {
        canary_endpoints: Some(vec!["c".to_string()]),
        ..no_update()
    };
    let (_, answer) = update_service_config(&mut state, "user-service", payload);
    assert!(answer.data.unwrap().canary_cluster.is_none());
}

#[test]
fn a_new_service_gets_a_breaker() {
    let (mut state, _, _) = AppState::new(GatewayConfig::default());
    let config = state.get_service("user-service").unwrap();
    state.update_service_config("added", config);
    assert_eq!(state.get_service("added").unwrap().name, "user-service");
    assert_eq!(state.get_circuit_breaker("added").unwrap().metrics(), (0, 0, 0));
    assert_eq!(list_services(&state).data.unwrap().len(), 3);
}

#[test]
fn a_reset_closes_the_circuit() {
    let (mut state, _, _) = AppState::new(GatewayConfig::default());
    fail(&mut state, "order-service", 30);
    let (_, answer) = get_service_status(&mut state, "order-service");
    assert_eq!(answer.data.unwrap().circuit_state, "Open");
    let (code, answer) = reset_circuit_breaker(&mut state, "order-service");
    assert_eq!(code, 200);
    assert!(answer.success);
    assert_eq!(answer.data, Some("Circuit breaker reset successfully".to_string()));
    let (_, answer) = get_service_status(&mut state, "order-service");
    let status = answer.data.unwrap();
    assert_eq!(status.circuit_state, "Closed");
    assert_eq!(status.total_requests, 0);
}

#[test]
fn global_settings() {
    let (mut state, _, _) = AppState::new(GatewayConfig::default());
    let answer = get_global_config(&state);
    assert!(answer.success);
    assert_eq!(answer.data.unwrap().global_timeout_ms, 5000);
    let none = UpdateGlobalConfigRequest { global_timeout_ms: None };
    let (code, answer) = update_global_config(&mut state, none);
    assert_eq!(code, 200);
    assert_eq!(answer.data.unwrap().global_timeout_ms, 5000);
    let some = UpdateGlobalConfigRequest { global_timeout_ms: Some(1) };
    let (_, answer) = update_global_config(&mut state, some);
    let config = answer.data.unwrap();
    assert_eq!(config.global_timeout_ms, 1);
    assert_eq!(config.services.len(), 2);
    assert_eq!(state.global_timeout_ms(), 1);
}

#[test]
fn the_sampler_can_be_changed() {
    let (mut state, _, worker) = AppState::with_sink(
        GatewayConfig::default(),
        LogSinkConfig::File { path: "p".to_string() },
        SamplerConfig::default(),
    );
    assert!(matches!(worker.sink, LogSinkConfig::File { .. }));
    assert!(state.sampler.matches_url("/api/v1/orders/1"));
    state.update_sampler_config(SamplerConfig {
        percentage: number(0.0),
        force_canary: false,
        url_patterns: vec![],
    });
    assert!(!state.sampler.matches_url("/api/v1/orders/1"));
}

#[test]
fn answers() {
    let good = ApiResponse::success(7u8);
    assert!(good.success);
    assert_eq!((good.data, good.message), (Some(7), None));
    let bad: ApiResponse<u8> = ApiResponse::error("no");
    assert!(!bad.success);
    assert_eq!((bad.data, bad.message), (None, Some("no".to_string())));
}

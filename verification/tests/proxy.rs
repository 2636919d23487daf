use gateway::admin_api::{update_service_config, UpdateServiceConfigRequest};
use gateway::circuit_breaker::CircuitState;
use gateway::config::GatewayConfig;
use gateway::headers::HeadersFull;
use gateway::proxy::{
    let_in, let_in_with, prepare, prepare_with, request_timeout, request_timeout_after, settle,
    target_url, PrepareError, ProxyError, Readings, Reply,
};
use gateway::state::AppState;
use gateway::time::Duration;
use gateway::timeout_budget::TimeoutBudget;
use gateway::types::{ClusterType, CANARY_CLUSTER_HEADER, CANARY_HEADER, GLOBAL_TIMEOUT_HEADER};
use std::time::Instant;

fn gateway_state() -> AppState {
    AppState::new(GatewayConfig::default()).0
}

fn at(first: u64, second: u64, open_for: u64) -> Readings {
    Readings {
        first_age: Duration::from_millis(first),
        second_age: Duration::from_millis(second),
        open_for: Duration::from_millis(open_for),
        now: Instant::now(),
    }
}

#[test]
fn a_request_for_a_known_service_is_let_in() {
    let mut state = gateway_state();
    let (budget, answer) = let_in(&mut state, "user-service", &http::HeaderMap::new());
    assert_eq!(budget.total_budget, Duration::from_millis(5000));
    assert_eq!(answer.unwrap().name, "user-service");
}

#[test]
fn a_request_for_an_unknown_service_is_not() {
    let mut state = gateway_state();
    let (_, answer) = let_in(&mut state, "nobody", &http::HeaderMap::new());
    let e = answer.unwrap_err();
    assert_eq!(e, ProxyError::UnknownService);
    assert_eq!(e.status(), 404);
}

#[test]
fn time_runs_out() {
    let mut state = gateway_state();
    let mut headers = http::HeaderMap::new();
    headers.insert(GLOBAL_TIMEOUT_HEADER, http::HeaderValue::from_static("0"));
    let (_, answer) = let_in(&mut state, "user-service", &headers);
    let e = answer.unwrap_err();
    assert_eq!((e, e.status()), (ProxyError::BudgetExpired, 503));
    headers.insert(GLOBAL_TIMEOUT_HEADER, http::HeaderValue::from_static("2999"));
    let (_, answer) = let_in(&mut state, "user-service", &headers);
    let e = answer.unwrap_err();
    assert_eq!((e, e.status()), (ProxyError::BudgetTooSmall, 503));

    let budget = TimeoutBudget::new(5000);
    let ok = let_in_with(&mut state, "user-service", &budget, at(4999, 2000, 0));
    assert!(ok.is_ok());
    let late = let_in_with(&mut state, "user-service", &budget, at(0, 2001, 0));
    assert_eq!(late.unwrap_err(), ProxyError::BudgetTooSmall);
    let gone = let_in_with(&mut state, "user-service", &budget, at(5000, 0, 0));
    assert_eq!(gone.unwrap_err(), ProxyError::BudgetExpired);
}

#[test]
fn a_service_without_a_breaker_is_an_error() {
    let mut state = gateway_state();
    state.circuit_breakers = dashmap::DashMap::new();
    let (_, answer) = let_in(&mut state, "user-service", &http::HeaderMap::new());
    let e = answer.unwrap_err();
    assert_eq!((e, e.status()), (ProxyError::MissingBreaker, 500));
}

#[test]
fn a_broken_service_is_cut_off_and_tried_again() {
    let mut state = gateway_state();
    let budget = TimeoutBudget::new(5000);
    let name = "user-service";
    for i in 0..20 {
        assert!(let_in_with(&mut state, name, &budget, at(0, 0, 0)).is_ok());
        let reply = match i % 3 {
            0 => Reply::Answered(500),
            1 => Reply::TimedOut,
            _ => Reply::Failed,
        };
        let _ = settle(&mut state, name, reply, Duration::from_millis(1));
    }
    let e = let_in_with(&mut state, name, &budget, at(0, 0, 0)).unwrap_err();
    assert_eq!((e, e.status()), (ProxyError::CircuitOpen, 503));
    let e = let_in_with(&mut state, name, &budget, at(0, 0, 4999)).unwrap_err();
    assert_eq!(e, ProxyError::CircuitOpen);
    assert!(let_in_with(&mut state, "order-service", &budget, at(0, 0, 0)).is_ok());
    for _ in 0..5 {
        assert!(let_in_with(&mut state, name, &budget, at(0, 0, 5000)).is_ok());
        let _ = settle(&mut state, name, Reply::Answered(200), Duration::from_millis(1));
    }
    assert!(let_in_with(&mut state, name, &budget, at(0, 0, 0)).is_ok());
    let cb = state.get_circuit_breaker(name).unwrap();
    assert_eq!(cb.state, CircuitState::Closed);
    assert_eq!(cb.metrics(), (0, 0, 0));
}

#[test]
fn a_request_that_is_turned_away_does_not_count_as_a_trial() {
    let mut state = gateway_state();
    let name = "user-service";
    for _ in 0..20 {
        let _ = settle(&mut state, name, Reply::Failed, Duration::from_millis(1));
    }
    let budget = TimeoutBudget::new(5000);
    assert!(let_in_with(&mut state, name, &budget, at(0, 0, 0)).is_err());
    assert!(let_in_with(&mut state, name, &budget, at(0, 0, 5000)).is_ok());
    assert_eq!(state.get_circuit_breaker(name).unwrap().half_open_attempts, 1);
    let spent = TimeoutBudget::new(0);
    assert!(let_in_with(&mut state, name, &spent, at(0, 0, 5000)).is_err());
    assert_eq!(state.get_circuit_breaker(name).unwrap().half_open_attempts, 1);
}

#[test]
fn replies_are_counted_by_their_status() {
    let mut state = gateway_state();
    let name = "order-service";
    for status in [200u16, 301, 404, 499, 600, 500, 503, 599] {
        let result = settle(&mut state, name, Reply::Answered(status), Duration::from_millis(1));
        assert_eq!(result, Ok(status));
    }
    assert_eq!(state.get_circuit_breaker(name).unwrap().metrics(), (8, 3, 0));
    let late = settle(&mut state, name, Reply::TimedOut, Duration::from_millis(1000));
    assert_eq!(late.unwrap_err().status(), 504);
    let lost = settle(&mut state, name, Reply::Failed, Duration::from_millis(1));
    assert_eq!(lost.unwrap_err().status(), 502);
    assert_eq!(state.get_circuit_breaker(name).unwrap().metrics(), (10, 5, 1));
    assert_eq!(state.get_circuit_breaker("user-service").unwrap().metrics(), (0, 0, 0));
    assert_eq!(settle(&mut state, "nobody", Reply::Answered(200), Duration::from_millis(1)), Ok(200));
    assert!(state.get_circuit_breaker("nobody").is_none());
}

#[test]
fn a_request_leaves_with_its_headers() {
    let state = gateway_state();
    let config = state.get_service("user-service").unwrap();
    let budget = TimeoutBudget::new(5000);
    let mut headers = http::HeaderMap::new();
    headers.insert(CANARY_HEADER, http::HeaderValue::from_static("canary"));
    headers.insert("x-request-id", http::HeaderValue::from_static("r"));
    headers.append("accept", http::HeaderValue::from_static("a"));
    headers.append("accept", http::HeaderValue::from_static("b"));
    headers.insert(GLOBAL_TIMEOUT_HEADER, http::HeaderValue::from_static("7"));
    let ages = (Duration::from_millis(1000), Duration::from_millis(1500));
    let out = prepare_with(
        &state.traffic_colorer,
        "user-service",
        &config,
        &budget,
        &mut headers,
        Some("/user-service/a?b=c"),
        0,
        ages,
    )
    .unwrap();
    assert_eq!(out.target.cluster_type, ClusterType::Canary);
    assert_eq!(out.target.service_name, "user-service");
    assert_eq!(out.url, "http://127.0.0.1:8082/user-service/a?b=c");
    assert_eq!(headers.get(CANARY_CLUSTER_HEADER).unwrap(), "canary");
    assert_eq!(headers.get(GLOBAL_TIMEOUT_HEADER).unwrap(), "4000");
    assert_eq!(out.headers.len(), 5);
    assert_eq!(out.headers.get(CANARY_HEADER).unwrap(), "canary");
    assert_eq!(out.headers.get(CANARY_CLUSTER_HEADER).unwrap(), "canary");
    assert_eq!(out.headers.get(GLOBAL_TIMEOUT_HEADER).unwrap(), "3500");
    assert_eq!(out.headers.get("x-request-id").unwrap(), "r");
    assert_eq!(out.headers.get("accept").unwrap(), "a");
}

#[test]
fn a_request_without_a_path_asks_for_the_root() {
    let state = gateway_state();
    let config = state.get_service("order-service").unwrap();
    let budget = TimeoutBudget::new(5000);
    let mut headers = http::HeaderMap::new();
    let out = prepare(
        &state.traffic_colorer,
        "order-service",
        &config,
        &budget,
        &mut headers,
        None,
    )
    .unwrap();
    assert_eq!(out.url, "http://127.0.0.1:8091/");
    assert_eq!(out.target.cluster_type, ClusterType::Stable);
    assert_eq!(out.headers.len(), 2);
    assert_eq!(out.headers.get(CANARY_CLUSTER_HEADER).unwrap(), "stable");
    assert_eq!(target_url("http://e", Some("/p")), "http://e/p");
}

fn many(names: usize) -> http::HeaderMap {
    let mut headers = http::HeaderMap::new();
    for i in 0..names {
        let name = http::HeaderName::from_bytes(format!("n{}", i).as_bytes()).unwrap();
        headers.insert(name, http::HeaderValue::from_static("v"));
    }
    headers
}

#[test]
fn a_request_with_very_many_headers_leaves() {
    let state = gateway_state();
    let config = state.get_service("order-service").unwrap();
    let budget = TimeoutBudget::new(5000);
    for names in [6552, 6553, 20000] {
        let mut headers = many(names);
        let out = prepare(&state.traffic_colorer, "s", &config, &budget, &mut headers, None);
        assert_eq!(out.unwrap().headers.keys_len(), names + 2);
    }
}

#[test]
fn a_header_with_an_odd_name_is_forwarded() {
    let state = gateway_state();
    let config = state.get_service("order-service").unwrap();
    let budget = TimeoutBudget::new(5000);
    let mut headers = http::HeaderMap::new();
    headers.insert(
        "x-odd name-0123456789-0123456789-0123456789-0123456789-0123456789-0123456789",
        http::HeaderValue::from_static("v"),
    );
    let odd = headers.keys().next().unwrap().clone();
    assert!(odd.as_str().contains('\0'));
    let out = prepare(&state.traffic_colorer, "s", &config, &budget, &mut headers, None).unwrap();
    assert_eq!(out.headers.len(), 3);
    assert_eq!(out.headers.get(&odd).unwrap(), "v");
}

#[test]
fn a_request_with_more_headers_than_a_map_holds_does_not() {
    let state = gateway_state();
    let config = state.get_service("order-service").unwrap();
    let budget = TimeoutBudget::new(5000);
    let mut headers = many(24576);
    let out = prepare(&state.traffic_colorer, "s", &config, &budget, &mut headers, None);
    assert_eq!(out.unwrap_err(), PrepareError::HeadersFull);
    assert_eq!(headers.keys_len(), 24576);
    let full = budget.inject_header_after(&mut headers, Duration::from_millis(0));
    assert_eq!(full, Err(HeadersFull));
    assert!(headers.get(GLOBAL_TIMEOUT_HEADER).is_none());
}

#[test]
fn a_request_without_an_endpoint_does_not_leave() {
    let state = gateway_state();
    let mut config = state.get_service("order-service").unwrap();
    config.stable_cluster.endpoints = vec![];
    let budget = TimeoutBudget::new(5000);
    let mut headers = http::HeaderMap::new();
    let out = prepare(&state.traffic_colorer, "s", &config, &budget, &mut headers, None);
    assert_eq!(out.unwrap_err(), PrepareError::NoEndpoint);
    assert!(headers.is_empty());
    headers.insert(CANARY_HEADER, http::HeaderValue::from_static("canary"));
    assert!(state.traffic_colorer.can_route_with(&headers, &config, 0));
    assert!(!state.traffic_colorer.can_route_with(&headers, &config, u64::MAX));
    let target = state.traffic_colorer.determine_route_with("s", &headers, &config, 0);
    assert_eq!(target.endpoint, "http://127.0.0.1:8092");
}

#[test]
fn the_shorter_limit_counts() {
    let state = gateway_state();
    let config = state.get_service("order-service").unwrap();
    let budget = TimeoutBudget::new(5000);
    assert_eq!(
        request_timeout_after(&config, &budget, Duration::from_millis(1000)),
        Duration::from_millis(3000)
    );
    assert_eq!(
        request_timeout_after(&config, &budget, Duration::from_millis(4000)),
        Duration::from_millis(1000)
    );
    assert_eq!(
        request_timeout_after(&config, &budget, Duration::from_millis(9000)),
        Duration::from_millis(0)
    );
    assert_eq!(request_timeout(&config, &TimeoutBudget::new(60_000)), Duration::from_millis(3000));
    assert!(request_timeout(&config, &TimeoutBudget::new(20)).nanos <= 20_000_000);
}

#[test]
fn a_longer_service_limit_needs_a_longer_budget() {
    let mut state = gateway_state();
    let payload = UpdateServiceConfigRequest {
        timeout_ms: Some(6000),
        canary_ratio: None,
        stable_endpoints: None,
        canary_endpoints: None,
        circuit_breaker: None,
    };
    update_service_config(&mut state, "user-service", payload);
    let (_, answer) = let_in(&mut state, "user-service", &http::HeaderMap::new());
    assert_eq!(answer.unwrap_err(), ProxyError::BudgetTooSmall);
}

#[test]
fn errors_have_status_codes() {
    assert_eq!(ProxyError::UnreadableRequest.status(), 400);
    assert_eq!(ProxyError::UnreadableReply.status(), 500);
    assert_eq!(ProxyError::TimedOut.status(), 504);
    assert_eq!(ProxyError::Unreachable.status(), 502);
}

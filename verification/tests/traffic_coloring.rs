use gateway::binary64::Binary64;
use gateway::config::{CircuitBreakerConfig, ClusterConfig, ServiceConfig};
use gateway::traffic_coloring::{propagate_canary_headers, TrafficColorer};
use gateway::types::{ClusterType, CANARY_CLUSTER_HEADER, CANARY_HEADER};

fn number(x: f64) -> Binary64 {
    Binary64 { bits: x.to_bits() }
}

fn service(stable: Vec<&str>, canary: Option<Vec<&str>>, ratio: f64) -> ServiceConfig {
    let list = |v: Vec<&str>| ClusterConfig {
        endpoints: v.iter().map(|s| s.to_string()).collect(),
    };
    ServiceConfig {
        name: "s".to_string(),
        stable_cluster: list(stable),
        canary_cluster: canary.map(list),
        canary_ratio: number(ratio),
        circuit_breaker: CircuitBreakerConfig {
            error_threshold: number(0.5),
            request_volume_threshold: 20,
            sleep_window_ms: 5000,
            slow_call_threshold_ms: 1000,
            slow_call_ratio_threshold: number(0.8),
        },
        timeout_ms: 3000,
    }
}

fn marked(text: &'static str) -> http::HeaderMap {
    let mut headers = http::HeaderMap::new();
    headers.insert(CANARY_HEADER, http::HeaderValue::from_static(text));
    headers
}

#[test]
fn the_ratio_decides_by_the_drawn_number() {
    let colorer = TrafficColorer::new();
    let config = service(vec!["a"], Some(vec!["b"]), 0.25);
    let quarter: u64 = 1 << 62;
    assert!(colorer.should_route_canary_with(&marked("canary"), &config, quarter - 1));
    assert!(!colorer.should_route_canary_with(&marked("canary"), &config, quarter));
    assert!(colorer.should_route_canary_with(&marked("CANARY"), &config, 0));
    assert!(!colorer.should_route_canary_with(&marked("stable"), &config, 0));
    assert!(!colorer.should_route_canary_with(&http::HeaderMap::new(), &config, 0));
    let without = service(vec!["a"], None, 1.0);
    assert!(!colorer.should_route_canary_with(&marked("canary"), &without, 0));
}

#[test]
fn full_and_empty_ratios_leave_nothing_to_chance() {
    let colorer = TrafficColorer::new();
    for _ in 0..50 {
        for ratio in [1.0, 2.0, f64::INFINITY] {
            let config = service(vec!["a"], Some(vec!["b"]), ratio);
            assert!(colorer.should_route_canary(&marked("canary"), &config));
            let target = colorer.determine_route("s", &marked("canary"), &config);
            assert_eq!(target.cluster_type, ClusterType::Canary);
            assert_eq!(target.endpoint, "b");
            assert_eq!(target.service_name, "s");
        }
        for ratio in [0.0, -0.0, -1.0, f64::NAN, f64::NEG_INFINITY] {
            let config = service(vec!["a"], Some(vec!["b"]), ratio);
            assert!(!colorer.should_route_canary(&marked("canary"), &config));
            let target = colorer.determine_route("s", &marked("canary"), &config);
            assert_eq!(target.cluster_type, ClusterType::Stable);
            assert_eq!(target.endpoint, "a");
        }
    }
}

#[test]
fn every_endpoint_is_picked_at_some_time() {
    let colorer = TrafficColorer::new();
    let config = service(vec!["a", "b", "c"], None, 0.0);
    let mut seen: Vec<String> = vec![];
    for _ in 0..300 {
        let picked = colorer.select_endpoint(&config, ClusterType::Stable).unwrap();
        if !seen.contains(&picked) {
            seen.push(picked);
        }
    }
    seen.sort();
    assert_eq!(seen, vec!["a", "b", "c"]);
}

#[test]
fn endpoints_by_their_place() {
    let colorer = TrafficColorer::new();
    let config = service(vec!["a", "b"], Some(vec![]), 0.0);
    let at = |c, i| colorer.select_endpoint_at(&config, c, i);
    assert_eq!(at(ClusterType::Stable, 1), Some("b".to_string()));
    assert_eq!(at(ClusterType::Stable, 2), None);
    assert_eq!(at(ClusterType::Canary, 0), None);
    assert_eq!(colorer.select_endpoint(&config, ClusterType::Canary), None);
    let without = service(vec!["a", "b"], None, 0.0);
    assert_eq!(
        colorer.select_endpoint_at(&without, ClusterType::Canary, 0),
        Some("a".to_string())
    );
}

#[test]
fn an_empty_canary_cluster_falls_back_to_the_first_stable_endpoint() {
    let colorer = TrafficColorer::default();
    let config = service(vec!["first", "second"], Some(vec![]), 1.0);
    for _ in 0..20 {
        let target = colorer.determine_route("s", &marked("canary"), &config);
        assert_eq!(target.cluster_type, ClusterType::Canary);
        assert_eq!(target.endpoint, "first");
    }
}

#[test]
fn the_cluster_goes_into_the_headers() {
    let colorer = TrafficColorer::new().clone();
    let mut headers = marked("canary");
    colorer.inject_canary_headers(&mut headers, ClusterType::Stable).unwrap();
    assert_eq!(headers.get(CANARY_CLUSTER_HEADER).unwrap(), "stable");
    colorer.inject_canary_headers(&mut headers, ClusterType::Canary).unwrap();
    assert_eq!(headers.get(CANARY_CLUSTER_HEADER).unwrap(), "canary");
    assert_eq!(headers.len(), 2);
}

#[test]
fn three_headers_are_propagated() {
    let mut src = marked("canary");
    src.append(CANARY_HEADER, http::HeaderValue::from_static("again"));
    src.insert("x-request-id", http::HeaderValue::from_static("r"));
    src.insert("accept", http::HeaderValue::from_static("a"));
    let mut dst = http::HeaderMap::new();
    dst.insert("accept", http::HeaderValue::from_static("b"));
    dst.insert(CANARY_CLUSTER_HEADER, http::HeaderValue::from_static("stable"));
    propagate_canary_headers(&src, &mut dst).unwrap();
    assert_eq!(dst.len(), 4);
    assert_eq!(dst.get(CANARY_HEADER).unwrap(), "canary");
    assert_eq!(dst.get("x-request-id").unwrap(), "r");
    assert_eq!(dst.get("accept").unwrap(), "b");
    assert_eq!(dst.get(CANARY_CLUSTER_HEADER).unwrap(), "stable");
}

#[test]
fn clusters_have_names() {
    assert_eq!(ClusterType::Stable.to_string(), "stable");
    assert_eq!(ClusterType::Canary.to_string(), "canary");
}

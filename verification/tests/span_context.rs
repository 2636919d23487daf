use gateway::span_context::{
    generate_request_id, get_span_context, try_get_span_context, update_span_context, SpanContext,
};
use gateway::time::Duration;
use gateway::types::{ClusterType, CANARY_CLUSTER_HEADER, CANARY_HEADER, GLOBAL_TIMEOUT_HEADER};

#[test]
fn test_span_context_basic() {
    let ctx = SpanContext::new("test-id".to_string(), 5000);
    assert_eq!(ctx.request_id, "test-id");
    let at_once = Duration::from_millis(0);
    assert_eq!(ctx.timeout_budget.remaining_after(at_once).to_millis(), 5000);
    assert!(ctx.remaining_budget_ms() <= 5000);
    assert!(!ctx.is_budget_expired());
}

#[test]
fn test_span_context_from_headers() {
    let mut headers = http::HeaderMap::new();
    headers.insert(CANARY_HEADER, http::HeaderValue::from_static("canary"));
    headers.insert(
        CANARY_CLUSTER_HEADER,
        http::HeaderValue::from_static("canary"),
    );
    headers.insert(
        GLOBAL_TIMEOUT_HEADER,
        http::HeaderValue::from_static("3000"),
    );

    let ctx = SpanContext::from_headers(&headers, 5000);
    assert!(ctx.is_canary);
    assert_eq!(ctx.cluster_type, Some(ClusterType::Canary));
    assert!(ctx.remaining_budget_ms() <= 3000);
}

#[test]
fn test_span_context_inject_headers() {
    let mut ctx = SpanContext::new("test-id".to_string(), 5000);
    ctx.is_canary = true;
    ctx.cluster_type = Some(ClusterType::Canary);

    let mut headers = http::HeaderMap::new();
    ctx.inject_headers(&mut headers).unwrap();

    assert_eq!(
        headers.get("x-request-id").and_then(|v| v.to_str().ok()),
        Some("test-id")
    );
    assert_eq!(
        headers.get(CANARY_HEADER).and_then(|v| v.to_str().ok()),
        Some("canary")
    );
    assert_eq!(
        headers.get(CANARY_CLUSTER_HEADER).and_then(|v| v.to_str().ok()),
        Some("canary")
    );
}

#[test]
fn headers_without_context_give_a_new_one() {
    let ctx = SpanContext::from_headers(&http::HeaderMap::new(), 700);
    assert_eq!(ctx.request_id.len(), 32);
    assert!(!ctx.is_canary);
    assert_eq!(ctx.cluster_type, None);
    assert_eq!(ctx.timeout_budget.total_budget, Duration::from_millis(700));
}

#[test]
fn marks_are_read_without_regard_to_case() {
    let mut headers = http::HeaderMap::new();
    headers.insert(CANARY_HEADER, http::HeaderValue::from_static("CaNaRy"));
    headers.insert(CANARY_CLUSTER_HEADER, http::HeaderValue::from_static("STABLE"));
    headers.insert("x-request-id", http::HeaderValue::from_static("Id-1"));
    let ctx = SpanContext::from_headers(&headers, 1);
    assert!(ctx.is_canary);
    assert_eq!(ctx.cluster_type, Some(ClusterType::Stable));
    assert_eq!(ctx.request_id, "Id-1");
    headers.insert(CANARY_CLUSTER_HEADER, http::HeaderValue::from_static("other"));
    headers.insert(CANARY_HEADER, http::HeaderValue::from_static("canary "));
    let ctx = SpanContext::from_headers(&headers, 1);
    assert!(!ctx.is_canary);
    assert_eq!(ctx.cluster_type, None);
}

#[test]
fn the_next_hop_reads_the_context_back() {
    let mut ctx = SpanContext::new("a".to_string(), 5000).with_canary(true).with_request_id(
        "hop-1".to_string(),
    );
    ctx.set_cluster_type(ClusterType::Stable);
    let mut headers = http::HeaderMap::new();
    ctx.inject_headers_after(&mut headers, Duration::from_millis(1234)).unwrap();
    assert_eq!(headers.get(GLOBAL_TIMEOUT_HEADER).unwrap(), "3766");
    let next = SpanContext::from_headers(&headers, 1);
    assert_eq!(next.request_id, "hop-1");
    assert!(next.is_canary);
    assert_eq!(next.cluster_type, Some(ClusterType::Stable));
    assert_eq!(next.timeout_budget.total_budget, Duration::from_millis(3766));
}

#[test]
fn an_identifier_that_is_no_header_value_is_not_written() {
    let ctx = SpanContext::new("a\nb".to_string(), 10);
    let mut headers = http::HeaderMap::new();
    ctx.inject_headers(&mut headers).unwrap();
    assert!(headers.get("x-request-id").is_none());
    assert!(headers.get(CANARY_HEADER).is_none());
    assert!(headers.get(CANARY_CLUSTER_HEADER).is_none());
    assert!(headers.get(GLOBAL_TIMEOUT_HEADER).is_some());
}

#[test]
fn a_spent_budget_is_expired() {
    let ctx = SpanContext::new("a".to_string(), 0);
    assert!(ctx.is_budget_expired());
    assert_eq!(ctx.remaining_budget_ms(), 0);
    assert!(ctx.remaining_budget().is_zero());
    assert!(ctx.has_enough_budget(Duration::from_millis(0)));
    assert!(!ctx.has_enough_budget(Duration::from_millis(1)));
}

#[test]
fn a_scope_holds_a_context() {
    assert!(try_get_span_context(None).is_none());
    let mut slot: Option<SpanContext> = None;
    assert!(try_get_span_context(Some(&slot)).is_none());
    update_span_context(&mut slot, |ctx: &mut SpanContext| ctx.is_canary = true);
    assert!(slot.is_none());
    slot = Some(SpanContext::new("persistent-id".to_string(), 5000));
    update_span_context(&mut slot, |ctx: &mut SpanContext| {
        ctx.is_canary = true;
        ctx.cluster_type = Some(ClusterType::Canary);
    });
    let ctx = get_span_context(Some(&slot));
    assert_eq!(ctx.request_id, "persistent-id");
    assert!(ctx.is_canary);
    assert_eq!(ctx.cluster_type, Some(ClusterType::Canary));
}

#[test]
fn generated_identifiers_differ() {
    let a = generate_request_id();
    let b = generate_request_id();
    assert_ne!(a, b);
    assert_eq!(a.len(), 32);
    assert!(a.chars().all(|c| c.is_ascii_hexdigit() && !c.is_ascii_uppercase()));
}

use gateway::grpc_metadata::{
    grpc_metadata_to_http_headers, http_headers_to_grpc_metadata, CANARY_CLUSTER_METADATA_KEY,
    CANARY_METADATA_KEY, GLOBAL_TIMEOUT_METADATA_KEY,
};
use gateway::string_map::StringMap;
use gateway::types::{CANARY_CLUSTER_HEADER, CANARY_HEADER, GLOBAL_TIMEOUT_HEADER};

#[test]
fn test_http_to_grpc_metadata() {
    let mut headers = http::HeaderMap::new();
    headers.insert(CANARY_HEADER, http::HeaderValue::from_static("canary"));
    headers.insert(
        CANARY_CLUSTER_HEADER,
        http::HeaderValue::from_static("canary"),
    );
    headers.insert(
        GLOBAL_TIMEOUT_HEADER,
        http::HeaderValue::from_static("5000"),
    );

    let metadata = http_headers_to_grpc_metadata(&headers);
    assert_eq!(metadata.get(CANARY_METADATA_KEY), Some(&"canary".to_string()));
    assert_eq!(
        metadata.get(CANARY_CLUSTER_METADATA_KEY),
        Some(&"canary".to_string())
    );
    assert_eq!(
        metadata.get(GLOBAL_TIMEOUT_METADATA_KEY),
        Some(&"5000".to_string())
    );
}

#[test]
fn test_grpc_to_http_headers() {
    let mut metadata = StringMap::new();
    metadata.insert(CANARY_METADATA_KEY.to_string(), "canary".to_string());
    metadata.insert(
        CANARY_CLUSTER_METADATA_KEY.to_string(),
        "canary".to_string(),
    );
    metadata.insert(
        GLOBAL_TIMEOUT_METADATA_KEY.to_string(),
        "5000".to_string(),
    );

    let headers = grpc_metadata_to_http_headers(&metadata);
    assert_eq!(
        headers.get(CANARY_HEADER).and_then(|v| v.to_str().ok()),
        Some("canary")
    );
    assert_eq!(
        headers.get(CANARY_CLUSTER_HEADER).and_then(|v| v.to_str().ok()),
        Some("canary")
    );
    assert_eq!(
        headers.get(GLOBAL_TIMEOUT_HEADER).and_then(|v| v.to_str().ok()),
        Some("5000")
    );
}

#[test]
fn only_four_keys_are_carried() {
    let mut headers = http::HeaderMap::new();
    headers.insert("x-request-id", http::HeaderValue::from_static("r1"));
    headers.insert("accept", http::HeaderValue::from_static("text/html"));
    let metadata = http_headers_to_grpc_metadata(&headers);
    assert_eq!(metadata.len(), 1);
    assert_eq!(metadata.get("x-request-id"), Some(&"r1".to_string()));
    let mut back = StringMap::new();
    back.insert("x-request-id".to_string(), "r1".to_string());
    back.insert("accept".to_string(), "text/html".to_string());
    let headers = grpc_metadata_to_http_headers(&back);
    assert_eq!(headers.len(), 1);
    assert_eq!(headers.get("x-request-id").unwrap(), "r1");
}

#[test]
fn values_that_are_no_text_stay_behind() {
    let mut headers = http::HeaderMap::new();
    headers.insert(CANARY_HEADER, http::HeaderValue::from_bytes(&[0xff, 0x41]).unwrap());
    headers.append("x-request-id", http::HeaderValue::from_static("first"));
    headers.append("x-request-id", http::HeaderValue::from_static("second"));
    let metadata = http_headers_to_grpc_metadata(&headers);
    assert_eq!(metadata.get(CANARY_METADATA_KEY), None);
    assert_eq!(metadata.get("x-request-id"), Some(&"first".to_string()));
    let mut odd = StringMap::new();
    odd.insert(CANARY_METADATA_KEY.to_string(), "a\nb".to_string());
    assert!(grpc_metadata_to_http_headers(&odd).is_empty());
}

#[test]
fn metadata_comes_back_from_headers() {
    let mut metadata = StringMap::new();
    metadata.insert(CANARY_METADATA_KEY.to_string(), "Canary x".to_string());
    metadata.insert("x-request-id".to_string(), "abc".to_string());
    let back = http_headers_to_grpc_metadata(&grpc_metadata_to_http_headers(&metadata));
    assert_eq!(back.len(), 2);
    assert_eq!(back.get(CANARY_METADATA_KEY), Some(&"Canary x".to_string()));
    assert_eq!(back.get("x-request-id"), Some(&"abc".to_string()));
}

use gateway::string_map::StringMap;
use gateway::trace_record::{
    binary_note, capture_headers, cluster_type_to_string, is_text_content,
    sampling_reason_to_string, should_capture_header, DownstreamCall, TraceRecord,
};
use gateway::trace_sampler::SamplingReason;
use gateway::types::ClusterType;

fn record() -> TraceRecord {
    TraceRecord::new("t".to_string(), "r".to_string())
}

#[test]
fn a_new_record_is_blank() {
    let before = gateway::time::now_ms();
    let record = record();
    assert!(record.timestamp_ms >= before);
    assert!(before > 1_600_000_000_000);
    assert_eq!(record.trace_id, "t");
    assert_eq!(record.request_id, "r");
    assert_eq!(record.sampling_reason, "NotSampled");
    assert_eq!(record.duration_ms, 0);
    assert_eq!(record.path, "");
    assert_eq!(record.status_code, 0);
    assert!(!record.sampled && !record.is_canary);
    assert!(record.request_body.is_none() && record.response_body.is_none());
    assert!(record.error_message.is_none());
    assert!(record.downstream_calls.is_empty());
    assert_eq!(record.request_headers.len(), 0);
}

#[test]
fn a_finished_record_knows_its_duration() {
    let mut record = record();
    record.timestamp_ms = 1000;
    record.finish_at(1250);
    assert_eq!(record.duration_ms, 250);
    record.finish_at(999);
    assert_eq!(record.duration_ms, u64::MAX);
    let mut other = TraceRecord::new("a".to_string(), "b".to_string());
    other.finish();
    assert!(other.duration_ms < 10_000);
}

#[test]
fn secrets_stay_out_of_records() {
    for name in ["cookie", "Set-Cookie", "authorization", "Proxy-Authorization", "x-csrf-TOKEN"] {
        assert!(!should_capture_header(name));
    }
    for name in ["accept", "content-type", "x-envoy", "cooky", ""] {
        assert!(should_capture_header(name));
    }
    let mut headers = http::HeaderMap::new();
    headers.insert("cookie", http::HeaderValue::from_static("secret"));
    headers.insert("x-auth-token", http::HeaderValue::from_static("secret"));
    headers.insert("accept", http::HeaderValue::from_static("text/html"));
    let kept = capture_headers(&headers);
    assert_eq!(kept.len(), 1);
    assert_eq!(kept.get("accept"), Some(&"text/html".to_string()));
}

#[test]
fn a_header_with_an_odd_name_is_kept_unless_it_speaks_of_secrets() {
    let mut headers = http::HeaderMap::new();
    headers.insert(
        "x-odd name-0123456789-0123456789-0123456789-0123456789-0123456789-0123456789",
        http::HeaderValue::from_static("v"),
    );
    headers.insert(
        "x-odd Token-0123456789-0123456789-0123456789-0123456789-0123456789-0123456789",
        http::HeaderValue::from_static("secret"),
    );
    let kept = capture_headers(&headers);
    assert_eq!(kept.len(), 1);
    assert_eq!(
        kept.keys()[0],
        "x-odd\0name-0123456789-0123456789-0123456789-0123456789-0123456789-0123456789"
    );
}

#[test]
fn the_last_value_that_is_text_is_kept() {
    let mut headers = http::HeaderMap::new();
    headers.append("via", http::HeaderValue::from_static("one"));
    headers.append("via", http::HeaderValue::from_static("two"));
    headers.append("via", http::HeaderValue::from_bytes(&[0xff]).unwrap());
    headers.insert("bad", http::HeaderValue::from_bytes(&[0xfe]).unwrap());
    let mut record = record();
    record.with_headers(&headers, true);
    assert_eq!(record.request_headers.len(), 1);
    assert_eq!(record.request_headers.get("via"), Some(&"two".to_string()));
    assert_eq!(record.response_headers.len(), 0);
    record.with_headers(&http::HeaderMap::new(), true);
    assert_eq!(record.request_headers.len(), 0);
    record.with_headers(&headers, false);
    assert_eq!(record.response_headers.get("via"), Some(&"two".to_string()));
}

fn typed(text: &str) -> StringMap<String> {
    let mut headers = StringMap::new();
    headers.insert("content-type".to_string(), text.to_string());
    headers
}

#[test]
fn content_types_that_are_text() {
    let none: StringMap<String> = StringMap::new();
    assert!(is_text_content(true, &none, &typed("image/png")));
    assert!(!is_text_content(false, &none, &typed("image/png")));
    for text in [
        "TEXT/html; charset=utf-8",
        "Application/JSON",
        "application/xml",
        "application/x-www-form-urlencoded",
        "application/javascript",
    ] {
        assert!(is_text_content(true, &typed(text), &none));
    }
    assert!(!is_text_content(true, &typed("application/octet-stream"), &none));
    assert!(!is_text_content(true, &typed(""), &none));
}

#[test]
fn bodies_are_kept_up_to_a_size() {
    let mut record = record();
    record.set_body(b"", true, 10);
    assert_eq!(record.request_body, None);
    record.set_body(b"hello world", true, 5);
    assert_eq!(record.request_body, Some("hello".to_string()));
    record.set_body(b"hi", false, 5);
    assert_eq!(record.response_body, Some("hi".to_string()));
    record.set_body(b"x", true, 0);
    assert_eq!(record.request_body, Some("".to_string()));
}

#[test]
fn bodies_that_are_not_text_are_noted() {
    let mut record = record();
    record.response_headers = typed("image/png");
    record.set_body(&[1, 2, 3, 4], false, 3);
    assert_eq!(record.response_body, Some("[binary data, 3 bytes]".to_string()));
    assert_eq!(binary_note(102400), "[binary data, 102400 bytes]");
}

#[test]
fn broken_text_is_mended() {
    let mut record = record();
    record.set_body(&[0x61, 0xff, 0x62], true, 10);
    assert_eq!(record.request_body, Some("a\u{fffd}b".to_string()));
}

#[test]
fn calls_are_listed_in_order() {
    let mut record = record();
    for status in [200u16, 503] {
        record.add_downstream_call(DownstreamCall {
            service_name: "s".to_string(),
            cluster_type: "stable".to_string(),
            endpoint: "e".to_string(),
            method: "GET".to_string(),
            path: "/".to_string(),
            status_code: status,
            duration_ms: 1,
            is_error: status >= 500,
            is_timeout: false,
            request_headers: StringMap::new(),
            response_headers: StringMap::new(),
        });
    }
    assert_eq!(record.downstream_calls.len(), 2);
    assert_eq!(record.downstream_calls[1].status_code, 503);
}

#[test]
fn names_in_records() {
    assert_eq!(cluster_type_to_string(None), "");
    assert_eq!(cluster_type_to_string(Some(ClusterType::Stable)), "stable");
    assert_eq!(cluster_type_to_string(Some(ClusterType::Canary)), "canary");
    for (reason, name) in [
        (SamplingReason::NotSampled, "NotSampled"),
        (SamplingReason::Percentage, "Percentage"),
        (SamplingReason::CanaryForced, "CanaryForced"),
        (SamplingReason::UrlRegex, "UrlRegex"),
        (SamplingReason::HeaderForced, "HeaderForced"),
    ] {
        assert_eq!(sampling_reason_to_string(reason), name);
    }
}

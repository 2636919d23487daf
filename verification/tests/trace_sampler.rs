use gateway::binary64::Binary64;
use gateway::trace_sampler::{
    inject_sampling_headers, DefaultSampler, SamplerConfig, SamplingDecision, SamplingReason,
    TraceSampler, SAMPLED_HEADER, TRACE_ID_HEADER,
};
use gateway::types::CANARY_HEADER;
use std::hash::{Hash, Hasher};

fn number(x: f64) -> Binary64 {
    Binary64 { bits: x.to_bits() }
}

fn sampler_with(percentage: f64, force_canary: bool, patterns: Vec<&str>) -> DefaultSampler {
    DefaultSampler::new(SamplerConfig {
        percentage: number(percentage),
        force_canary,
        url_patterns: patterns.iter().map(|p| p.to_string()).collect(),
    })
}

#[test]
fn test_canary_force_sampling() {
    let sampler = sampler_with(0.0, true, vec![]);

    let mut headers = http::HeaderMap::new();
    headers.insert(CANARY_HEADER, http::HeaderValue::from_static("canary"));

    let decision = sampler.should_sample(&headers, "/api/test");
    assert!(decision.sampled);
    assert_eq!(decision.reason, SamplingReason::CanaryForced);
}

#[test]
fn test_url_regex_sampling() {
    let sampler = sampler_with(0.0, false, vec![r"^/api/v1/orders/.*"]);

    let headers = http::HeaderMap::new();

    let decision = sampler.should_sample(&headers, "/api/v1/orders/123");
    assert!(decision.sampled);
    assert_eq!(decision.reason, SamplingReason::UrlRegex);

    let decision = sampler.should_sample(&headers, "/api/v1/users/123");
    assert!(!decision.sampled);
}

#[test]
fn test_header_forced_sampling() {
    let config = SamplerConfig::default();
    let sampler = DefaultSampler::new(config);

    let mut headers = http::HeaderMap::new();
    headers.insert(SAMPLED_HEADER, http::HeaderValue::from_static("1"));

    let decision = sampler.should_sample(&headers, "/any/url");
    assert!(decision.sampled);
    assert_eq!(decision.reason, SamplingReason::HeaderForced);
}

#[test]
fn test_header_forced_not_sampled() {
    let sampler = sampler_with(1.0, true, vec![]);

    let mut headers = http::HeaderMap::new();
    headers.insert(CANARY_HEADER, http::HeaderValue::from_static("canary"));
    headers.insert(SAMPLED_HEADER, http::HeaderValue::from_static("0"));

    let decision = sampler.should_sample(&headers, "/any/url");
    assert!(!decision.sampled);
    assert_eq!(decision.reason, SamplingReason::NotSampled);
}

#[test]
fn test_percentage_sampling() {
    let sampler = sampler_with(1.0, false, vec![]);

    let headers = http::HeaderMap::new();

    let mut sampled_count = 0;
    for _ in 0..100 {
        let decision = sampler.should_sample(&headers, "/test/url");
        if decision.sampled {
            sampled_count += 1;
        }
    }
    assert!(sampled_count > 50, "Expected majority sampled at 100% config");
}

#[test]
fn test_trace_id_generation() {
    let sampler = DefaultSampler::new(SamplerConfig::default());
    let headers = http::HeaderMap::new();

    let d1 = sampler.should_sample(&headers, "/a");
    let d2 = sampler.should_sample(&headers, "/b");

    assert_ne!(d1.trace_id, d2.trace_id);
    assert_eq!(d1.trace_id.len(), 32);
}

#[test]
fn test_trace_id_propagation() {
    let sampler = DefaultSampler::new(SamplerConfig::default());

    let mut headers = http::HeaderMap::new();
    headers.insert(
        TRACE_ID_HEADER,
        http::HeaderValue::from_static("abcdef1234567890abcdef1234567890"),
    );

    let decision = sampler.should_sample(&headers, "/test");
    assert_eq!(decision.trace_id, "abcdef1234567890abcdef1234567890");
}

#[test]
fn headers_go_before_canary_and_address() {
    let sampler = sampler_with(1.0, true, vec!["."]);
    let mut headers = http::HeaderMap::new();
    headers.insert(CANARY_HEADER, http::HeaderValue::from_static("Canary"));
    assert_eq!(sampler.rule(&headers, "/a"), Some((true, SamplingReason::CanaryForced)));
    for text in ["false", "FALSE", "False", "0"] {
        headers.insert(SAMPLED_HEADER, http::HeaderValue::from_static(text));
        assert_eq!(sampler.rule(&headers, "/a"), Some((false, SamplingReason::NotSampled)));
    }
    for text in ["true", "TRUE", "True", "1"] {
        headers.insert(SAMPLED_HEADER, http::HeaderValue::from_static(text));
        assert_eq!(sampler.rule(&headers, "/a"), Some((true, SamplingReason::HeaderForced)));
    }
    headers.insert(SAMPLED_HEADER, http::HeaderValue::from_static("yes"));
    assert_eq!(sampler.rule(&headers, "/a"), Some((true, SamplingReason::CanaryForced)));
    headers.remove(CANARY_HEADER);
    assert_eq!(sampler.rule(&headers, "/a"), Some((true, SamplingReason::UrlRegex)));
    assert_eq!(sampler.rule(&headers, ""), None);
}

#[test]
fn a_matched_pattern_comes_last() {
    let sampler = sampler_with(1.0, true, vec![]);
    let mut headers = http::HeaderMap::new();
    assert_eq!(sampler.rule_with(&headers, true), Some((true, SamplingReason::UrlRegex)));
    assert_eq!(sampler.rule_with(&headers, false), None);
    headers.insert(CANARY_HEADER, http::HeaderValue::from_static("canary"));
    assert_eq!(sampler.rule_with(&headers, true), Some((true, SamplingReason::CanaryForced)));
    let indifferent = sampler_with(1.0, false, vec![]);
    assert_eq!(indifferent.rule_with(&headers, true), Some((true, SamplingReason::UrlRegex)));
    headers.insert(SAMPLED_HEADER, http::HeaderValue::from_static("0"));
    assert_eq!(sampler.rule_with(&headers, true), Some((false, SamplingReason::NotSampled)));
}

#[test]
fn a_full_map_takes_no_decision() {
    let mut headers = http::HeaderMap::new();
    for i in 0..24576 {
        let name = http::HeaderName::from_bytes(format!("n{}", i).as_bytes()).unwrap();
        headers.insert(name, http::HeaderValue::from_static("v"));
    }
    let decision = SamplingDecision {
        sampled: true,
        reason: SamplingReason::Percentage,
        trace_id: "0123".to_string(),
    };
    assert!(inject_sampling_headers(&decision, &mut headers).is_err());
    assert!(headers.get(TRACE_ID_HEADER).is_none());
    assert_eq!(headers.keys_len(), 24576);
}

#[test]
fn a_large_map_takes_a_decision() {
    let mut headers = http::HeaderMap::new();
    for i in 0..20000 {
        let name = http::HeaderName::from_bytes(format!("n{}", i).as_bytes()).unwrap();
        headers.insert(name, http::HeaderValue::from_static("v"));
    }
    let first = sampler_with(0.0, false, vec![]).should_sample(&headers, "/a");
    inject_sampling_headers(&first, &mut headers).unwrap();
    let next = sampler_with(1.0, true, vec!["."]).should_sample(&headers, "/b");
    assert_eq!(next.sampled, first.sampled);
    assert_eq!(next.trace_id, first.trace_id);
}

#[test]
fn patterns_that_do_not_compile_are_left_out() {
    let sampler = sampler_with(0.0, false, vec!["(", "^/x$", "["]);
    assert!(sampler.matches_url("/x"));
    assert!(!sampler.matches_url("/xy"));
    let compiled = DefaultSampler::compile_patterns(&vec!["(".to_string(), "a+".to_string()]);
    assert_eq!(compiled.len(), 1);
}

#[test]
fn the_share_goes_by_the_hash_of_identifier_and_address() {
    let sampler = sampler_with(0.5, false, vec![]);
    let mut below = 0;
    for i in 0..200 {
        let id = format!("trace-{}", i);
        let mut hasher = twox_hash::XxHash64::default();
        format!("{}|/u", id).as_str().hash(&mut hasher);
        let in_share = hasher.finish() < 1 << 63;
        let mut headers = http::HeaderMap::new();
        headers.insert(TRACE_ID_HEADER, http::HeaderValue::from_str(&id).unwrap());
        if in_share {
            below += 1;
            let decision = sampler.should_sample(&headers, "/u");
            assert!(decision.sampled);
            assert_eq!(decision.reason, SamplingReason::Percentage);
        }
    }
    assert!(below > 50 && below < 150);
}

#[test]
fn a_request_outside_of_the_share_has_a_second_chance() {
    let sampler = sampler_with(0.5, false, vec![]);
    assert!(sampler.is_in_share((1 << 63) - 1, u64::MAX));
    assert!(!sampler.is_in_share(1 << 63, u64::MAX));
    assert!(sampler.is_in_share(1 << 63, 0));
    let twentieth: u64 = ((0.5 * 0.1) * 9007199254740992.0) as u64;
    assert!(sampler.is_in_share(u64::MAX, (twentieth - 1) << 11));
    assert!(!sampler.is_in_share(u64::MAX, (twentieth + 1) << 11));
}

#[test]
fn no_share_and_no_number_trace_nothing() {
    for percentage in [0.0, -1.0, -0.0, f64::NAN] {
        let sampler = sampler_with(percentage, true, vec![]);
        assert!(!sampler.is_in_share(0, 0));
        let decision = sampler.should_sample(&http::HeaderMap::new(), "/a");
        assert!(!decision.sampled);
        assert_eq!(decision.reason, SamplingReason::NotSampled);
    }
}

#[test]
fn a_share_above_one_is_all() {
    let sampler = sampler_with(7.0, false, vec![]);
    assert!(sampler.is_in_share(u64::MAX - 1, u64::MAX));
    assert!(!sampler.is_in_share(u64::MAX, u64::MAX));
}

#[test]
fn the_next_hop_takes_a_decision_over() {
    for sampled in [true, false] {
        let decision = SamplingDecision {
            sampled,
            reason: SamplingReason::Percentage,
            trace_id: "0123".to_string(),
        };
        let mut headers = http::HeaderMap::new();
        inject_sampling_headers(&decision, &mut headers).unwrap();
        assert_eq!(headers.get(TRACE_ID_HEADER).unwrap(), "0123");
        assert_eq!(headers.get(SAMPLED_HEADER).unwrap(), if sampled { "1" } else { "0" });
        let next = sampler_with(if sampled { 0.0 } else { 1.0 }, true, vec!["."]);
        let taken = next.should_sample(&headers, "/a");
        assert_eq!(taken.sampled, sampled);
        assert_eq!(taken.trace_id, "0123");
    }
}

#[test]
fn an_update_compiles_the_patterns_anew() {
    let mut sampler = sampler_with(0.0, false, vec!["a"]);
    assert!(sampler.matches_url("a"));
    sampler.update_config(SamplerConfig {
        percentage: number(0.0),
        force_canary: false,
        url_patterns: vec!["b".to_string()],
    });
    assert!(!sampler.matches_url("a"));
    assert!(sampler.matches_url("b"));
}

#[test]
fn the_usual_sampling() {
    let config = SamplerConfig::default();
    assert_eq!(config.percentage.bits, 0.01f64.to_bits());
    assert!(config.force_canary);
    assert_eq!(config.url_patterns, vec!["^/api/v1/orders/.*".to_string()]);
}

#[test]
fn generated_identifiers_are_lower_case_hex() {
    let id = DefaultSampler::generate_trace_id();
    assert_eq!(id.len(), 32);
    assert!(id.chars().all(|c| c.is_ascii_digit() || ('a'..='f').contains(&c)));
}

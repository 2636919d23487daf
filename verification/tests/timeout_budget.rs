use gateway::text::{hex_encode, parse_u64, u64_to_string};
use gateway::time::Duration;
use gateway::timeout_budget::TimeoutBudget;
use gateway::types::GLOBAL_TIMEOUT_HEADER;

fn granted(text: &'static str) -> http::HeaderMap {
    let mut headers = http::HeaderMap::new();
    headers.insert(GLOBAL_TIMEOUT_HEADER, http::HeaderValue::from_static(text));
    headers
}

#[test]
fn headers_grant_the_budget() {
    let (budget, granted_by_header) = TimeoutBudget::from_header_or_new(&granted("1500"), 5000);
    assert!(granted_by_header);
    assert_eq!(budget.total_budget, Duration::from_millis(1500));
}

#[test]
fn other_headers_do_not() {
    for text in ["", "abc", "-1", "1.5", " 7", "18446744073709551616"] {
        let (budget, granted_by_header) = TimeoutBudget::from_header_or_new(&granted(text), 5000);
        assert!(!granted_by_header);
        assert_eq!(budget.total_budget, Duration::from_millis(5000));
    }
    let (budget, granted_by_header) =
        TimeoutBudget::from_header_or_new(&http::HeaderMap::new(), 40);
    assert!(!granted_by_header);
    assert_eq!(budget.total_budget, Duration::from_millis(40));
}

#[test]
fn the_budget_shrinks_with_time() {
    let budget = TimeoutBudget::new(10);
    assert_eq!(budget.remaining_after(Duration { nanos: 0 }).nanos, 10_000_000);
    assert_eq!(budget.remaining_after(Duration { nanos: 1 }).to_millis(), 9);
    assert_eq!(budget.remaining_after(Duration::from_millis(10)).nanos, 0);
    assert_eq!(budget.remaining_after(Duration::from_millis(11)).nanos, 0);
    assert!(budget.remaining().nanos <= 10_000_000);
    assert!(budget.remaining_ms() <= 10);
}

#[test]
fn a_long_budget_is_not_expired() {
    let budget = TimeoutBudget::new(3_600_000);
    assert!(!budget.is_expired());
    assert!(budget.has_enough_budget(Duration::from_millis(1_800_000)));
    assert!(!budget.has_enough_budget(Duration::from_millis(3_600_001)));
    assert!(TimeoutBudget::new(0).is_expired());
}

#[test]
fn what_is_written_is_read_back() {
    let budget = TimeoutBudget::new(5000);
    let mut headers = granted("99");
    budget.inject_header_after(&mut headers, Duration::from_millis(1000)).unwrap();
    assert_eq!(headers.get(GLOBAL_TIMEOUT_HEADER).unwrap(), "4000");
    let (next, granted_by_header) = TimeoutBudget::from_header_or_new(&headers, 1);
    assert!(granted_by_header);
    assert_eq!(next.total_budget, Duration::from_millis(4000));
    budget.inject_header(&mut headers).unwrap();
    let text = headers.get(GLOBAL_TIMEOUT_HEADER).unwrap().to_str().unwrap().to_string();
    assert!(parse_u64(&text).unwrap() <= 5000);
}

#[test]
fn numbers_parse_as_in_std() {
    for text in [
        "0",
        "+0",
        "007",
        "+18446744073709551615",
        "18446744073709551615",
        "18446744073709551616",
        "99999999999999999999999999",
        "",
        "+",
        "-",
        "-0",
        "1_000",
        "12a",
        "\u{0661}",
    ] {
        assert_eq!(parse_u64(text), text.parse::<u64>().ok());
    }
}

#[test]
fn numbers_print_as_in_std() {
    for n in [0u64, 1, 9, 10, 99, 100, 5000, u64::MAX - 1, u64::MAX] {
        assert_eq!(u64_to_string(n), n.to_string());
        assert_eq!(parse_u64(&u64_to_string(n)), Some(n));
    }
}

#[test]
fn bytes_print_as_hex() {
    assert_eq!(hex_encode(&[]), "");
    assert_eq!(hex_encode(&[0, 1, 0x9a, 0xbc, 0xff, 0x10]), "00019abcff10");
}

#[test]
fn spans_of_time() {
    let d = Duration { nanos: 1_999_999 };
    assert_eq!(d.as_millis(), 1);
    assert_eq!(d.min(Duration::from_millis(1)), Duration::from_millis(1));
    assert_eq!(Duration::from_millis(1).min(d), Duration::from_millis(1));
    assert!(d.at_least(Duration::from_millis(1)));
    assert!(!d.at_least(Duration::from_millis(2)));
    assert_eq!(Duration { nanos: u128::MAX }.to_millis(), (u128::MAX / 1_000_000) as u64);
}

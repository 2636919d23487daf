use gateway::config::clone_texts;
use gateway::headers::{copy_value, get_text, set_text};
use gateway::string_map::StringMap;
use gateway::text::str_eq;

#[test]
fn keys_keep_the_order_of_their_first_insertion() {
    let mut map: StringMap<u32> = StringMap::new();
    for (key, value) in [("b", 1), ("a", 2), ("c", 3), ("a", 4)] {
        map.insert(key.to_string(), value);
    }
    assert_eq!(map.len(), 3);
    assert_eq!(map.keys(), vec!["b", "a", "c"]);
    assert_eq!(map.get("a"), Some(&4));
    assert_eq!(map.get("d"), None);
    assert!(map.contains_key("c") && !map.contains_key(""));
    assert_eq!(map.entry(1), (&"a".to_string(), &4));
    let copy = map.clone();
    map.insert("d".to_string(), 5);
    assert_eq!(copy.keys(), vec!["b", "a", "c"]);
    assert_eq!(copy.get("b"), Some(&1));
}

#[test]
fn texts_are_compared_and_copied() {
    assert!(str_eq("", "") && str_eq("caf\u{e9}", "caf\u{e9}"));
    assert!(!str_eq("a", "A") && !str_eq("a", "ab") && !str_eq("ab", "a"));
    let list = vec!["x".to_string(), "y".to_string()];
    assert_eq!(clone_texts(&list), list);
}

#[test]
fn text_goes_in_and_out_of_headers() {
    let mut headers = http::HeaderMap::new();
    set_text(&mut headers, "x-a", "one\ttwo").unwrap();
    assert_eq!(get_text(&headers, "x-a"), Some("one\ttwo".to_string()));
    set_text(&mut headers, "x-a", "bad\n").unwrap();
    assert_eq!(get_text(&headers, "x-a"), Some("one\ttwo".to_string()));
    set_text(&mut headers, "x-a", "caf\u{e9}").unwrap();
    assert_eq!(get_text(&headers, "x-a"), None);
    assert_eq!(headers.get("x-a").unwrap().as_bytes(), "caf\u{e9}".as_bytes());
    assert_eq!(get_text(&headers, "x-b"), None);
    let mut other = http::HeaderMap::new();
    copy_value(&headers, &mut other, "x-a").unwrap();
    copy_value(&headers, &mut other, "x-b").unwrap();
    assert_eq!(other.len(), 1);
    assert_eq!(other.get("x-a"), headers.get("x-a"));
}

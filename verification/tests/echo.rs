use gateway::echo::EchoSettings;

fn settings(args: Vec<&str>) -> EchoSettings {
    EchoSettings::from_args(&args.iter().map(|s| s.to_string()).collect())
}

#[test]
fn arguments_give_the_settings() {
    let s = settings(vec!["echo"]);
    assert_eq!(s.service_name, "user-service");
    assert_eq!(s.cluster_type, "stable");
    assert_eq!(s.port, 8081);
    let s = settings(vec!["echo", "order-service", "canary", "8092"]);
    assert_eq!(s.service_name, "order-service");
    assert_eq!(s.cluster_type, "canary");
    assert_eq!(s.port, 8092);
    assert_eq!(settings(vec![]).port, 8081);
    let ports =
        [("65535", 65535u16), ("65536", 8081), ("", 8081), ("x", 8081), ("+80", 80), ("0", 0)];
    for (text, port) in ports {
        assert_eq!(settings(vec!["echo", "a", "b", text]).port, port);
    }
}

#[test]
fn the_answer_repeats_the_request() {
    let mut headers = http::HeaderMap::new();
    headers.append("cookie", http::HeaderValue::from_static("one"));
    headers.append("cookie", http::HeaderValue::from_static("two"));
    headers.insert("x-bad", http::HeaderValue::from_bytes(&[0xff]).unwrap());
    let answer = settings(vec!["echo", "s", "c"]).echo(&headers, "a/b");
    assert_eq!(answer.service, "s");
    assert_eq!(answer.cluster, "c");
    assert_eq!(answer.path, "a/b");
    assert_eq!(answer.headers.len(), 1);
    assert_eq!(answer.headers.get("cookie"), Some(&"two".to_string()));
}

use coplex_cage::sandbox::{
    env_lookup, env_value_bytes, error_response, http_reply_text, inbox_copy_len, is_url_allowed, parse_http_method,
    peer_send, plan_http_request, request_headers, response_window, string_headers_of, HttpMethod,
    HttpPlan, PeerSend, Sandbox,
};

fn list(v: &[&str]) -> Vec<String> {
    v.iter().map(|s| s.to_string()).collect()
}

#[test]
fn url_whitelist_respects_boundaries() {
    let w = list(&["https://api.example.com"]);
    assert!(is_url_allowed("https://api.example.com", &w));
    assert!(is_url_allowed("https://api.example.com/v1", &w));
    assert!(is_url_allowed("https://api.example.com?q=1", &w));
    assert!(is_url_allowed("https://api.example.com#top", &w));
    assert!(is_url_allowed("https://api.example.com:8443/x", &w));
    assert!(!is_url_allowed("https://api.example.com.evil.net", &w));
    assert!(!is_url_allowed("https://api.example.co", &w));
    assert!(!is_url_allowed("http://api.example.com", &w));
    assert!(!is_url_allowed("https://api.example.com", &Vec::new()));
}

#[test]
fn url_prefix_ending_at_a_boundary_allows_what_follows() {
    let w = list(&["https://api.example.com/"]);
    assert!(is_url_allowed("https://api.example.com/v1/data", &w));
    assert!(is_url_allowed("https://api.example.com/", &w));
    assert!(!is_url_allowed("https://api.example.com", &w));
    let q = list(&["https://api.example.com/search?"]);
    assert!(is_url_allowed("https://api.example.com/search?q=x", &q));
    assert!(!is_url_allowed("https://api.example.com/searching", &q));
}

#[test]
fn response_window_truncates_and_negates() {
    assert_eq!(response_window(10, 100), (10, 10));
    assert_eq!(response_window(10, 10), (10, 10));
    assert_eq!(response_window(10, 4), (4, -10));
    assert_eq!(response_window(10, 0), (0, -10));
    assert_eq!(response_window(0, 0), (0, 0));
    assert_eq!(response_window(10, -1), (10, 10));
}

#[test]
fn inbox_copy_is_bounded_by_buffer() {
    assert_eq!(inbox_copy_len(10, 100), 10);
    assert_eq!(inbox_copy_len(10, 3), 3);
    assert_eq!(inbox_copy_len(0, 0), 0);
}

#[test]
fn env_lookup_and_bytes() {
    let env = vec![("A".to_string(), "1".to_string()), ("B".to_string(), "two".to_string())];
    assert_eq!(env_lookup(&env, "B"), Some("two".to_string()));
    assert_eq!(env_lookup(&env, "C"), None);
    assert_eq!(env_value_bytes(&"two".to_string()), b"two\0".to_vec());
    assert_eq!(env_value_bytes(&String::new()), vec![0u8]);
}

#[test]
fn sandbox_env_overrides_and_loads() {
    let mut s = Sandbox::new();
    s.set_env("K".to_string(), "1".to_string());
    s.set_env("J".to_string(), "2".to_string());
    s.set_env("K".to_string(), "3".to_string());
    assert_eq!(s.env(), &vec![("K".to_string(), "3".to_string()), ("J".to_string(), "2".to_string())]);
    s.allow_url("https://a".to_string());
    assert!(!s.is_loaded());
    s.load_agent();
    assert!(s.is_loaded());
    s.set_env("L".to_string(), "4".to_string());
    assert_eq!(s.agent_env().len(), 2);
    assert_eq!(s.agent_allowed_urls(), &vec!["https://a".to_string()]);
    assert_eq!(s.stats(), (0, 0));
    s.record_init(100, 70);
    s.record_tick(70, 50);
    s.record_tick(50, 60);
    assert_eq!(s.stats(), (50, 2));
    s.load_agent();
    assert_eq!(s.stats(), (0, 0));
}

#[test]
fn http_methods() {
    assert_eq!(parse_http_method("GET"), Some(HttpMethod::Get));
    assert_eq!(parse_http_method("OPTIONS"), Some(HttpMethod::Options));
    assert_eq!(parse_http_method("get"), None);
    assert!(HttpMethod::Patch.has_body());
    assert!(!HttpMethod::Head.has_body());
}

#[test]
fn http_plan_sends_whitelisted_request() {
    let w = list(&["https://api.x.com"]);
    match plan_http_request(br#"{"method":"POST","url":"https://api.x.com/a","body":"hi"}"#, &w) {
        HttpPlan::Send { method, url, body, request } => {
            assert_eq!(method, HttpMethod::Post);
            assert_eq!(url, "https://api.x.com/a");
            assert_eq!(body, "hi");
            assert_eq!(request, r#"{"body":"hi","method":"POST","url":"https://api.x.com/a"}"#);
        }
        other => panic!("unexpected {other:?}"),
    }
    match plan_http_request(br#"{"url":"https://api.x.com","body":"ignored"}"#, &w) {
        HttpPlan::Send { method, body, .. } => {
            assert_eq!(method, HttpMethod::Get);
            assert_eq!(body, "");
        }
        other => panic!("unexpected {other:?}"),
    }
}

#[test]
fn http_plan_refusals() {
    let w = list(&["https://api.x.com"]);
    assert!(matches!(plan_http_request(b"not json", &w), HttpPlan::Invalid));
    assert!(matches!(plan_http_request(br#"{"method":"GET"}"#, &w), HttpPlan::Invalid));
    match plan_http_request(br#"{"url":"https://evil.com"}"#, &w) {
        HttpPlan::Denied { text } => assert_eq!(text, r#"{"error":"URL not allowed","status":0}"#),
        other => panic!("unexpected {other:?}"),
    }
    match plan_http_request(br#"{"method":"TRACE","url":"https://api.x.com"}"#, &w) {
        HttpPlan::Unsupported { text } => assert_eq!(text, r#"{"error":"unsupported method: TRACE","status":0}"#),
        other => panic!("unexpected {other:?}"),
    }
}

#[test]
fn error_response_matches_serde() {
    let t = error_response("bad \"quote\"");
    let v: serde_json::Value = serde_json::from_str(&t).unwrap();
    assert_eq!(v["status"], 0);
    assert_eq!(v["error"], "bad \"quote\"");
    assert_eq!(t, serde_json::to_string(&v).unwrap());
}

#[test]
fn escapes_match_serde() {
    let msg = "q\"b\\s\u{8}\t\n\u{c}\r\u{1}\u{1f} \u{7f}é/";
    let t = error_response(msg);
    assert_eq!(t, "{\"error\":\"q\\\"b\\\\s\\b\\t\\n\\f\\r\\u0001\\u001f \u{7f}é/\",\"status\":0}");
    let mut obj = serde_json::Map::new();
    obj.insert("error".to_string(), serde_json::Value::String(msg.to_string()));
    obj.insert("status".to_string(), serde_json::Value::from(0));
    assert_eq!(t, serde_json::Value::Object(obj).to_string());
}

#[test]
fn reply_text_is_sorted_json_object() {
    let headers = vec![
        ("x-b".to_string(), "2".to_string()),
        ("content-type".to_string(), "text/plain".to_string()),
        ("x-b".to_string(), "3".to_string()),
        ("a".to_string(), "\"q\"".to_string()),
    ];
    let t = http_reply_text(200, &headers, "hi\n");
    assert_eq!(t, r#"{"body":"hi\n","headers":{"a":"\"q\"","content-type":"text/plain","x-b":"3"},"status":200}"#);
    let mut hdrs = serde_json::Map::new();
    for (k, v) in &headers {
        hdrs.insert(k.clone(), serde_json::Value::String(v.clone()));
    }
    let mut out = serde_json::Map::new();
    out.insert("status".to_string(), serde_json::Value::from(200u16));
    out.insert("headers".to_string(), serde_json::Value::Object(hdrs));
    out.insert("body".to_string(), serde_json::Value::String("hi\n".to_string()));
    assert_eq!(t, serde_json::Value::Object(out).to_string());
    assert_eq!(http_reply_text(7, &Vec::new(), ""), r#"{"body":"","headers":{},"status":7}"#);
    assert_eq!(http_reply_text(65535, &Vec::new(), "x"), r#"{"body":"x","headers":{},"status":65535}"#);
}

#[test]
fn reply_headers_keep_last_value_per_name() {
    let headers = vec![
        ("b".to_string(), "1".to_string()),
        ("a".to_string(), "1".to_string()),
        ("b".to_string(), "2".to_string()),
        ("ab".to_string(), "1".to_string()),
    ];
    assert_eq!(
        http_reply_text(404, &headers, "gone"),
        r#"{"body":"gone","headers":{"a":"1","ab":"1","b":"2"},"status":404}"#
    );
}

#[test]
fn request_headers_keep_string_values() {
    let h = request_headers(r#"{"url":"https://x","headers":{"b":"2","a":"1","n":3,"o":{"k":"v"}}}"#);
    assert_eq!(h, vec![("a".to_string(), "1".to_string()), ("b".to_string(), "2".to_string())]);
    assert!(request_headers(r#"{"url":"https://x"}"#).is_empty());
    assert!(request_headers(r#"{"headers":"x"}"#).is_empty());
    assert!(request_headers("not json").is_empty());
    let members = vec![("k".to_string(), Some("v".to_string())), ("n".to_string(), None)];
    assert_eq!(string_headers_of(&members), vec![("k".to_string(), "v".to_string())]);
}

#[test]
fn peer_send_builds_peer_message() {
    match peer_send("leader", "worker-a", br#"{ "task" : "t1" }"#) {
        PeerSend::Queued(m) => {
            assert_eq!(m.kind, "peer");
            assert_eq!(m.payload, r#"{"from":"leader","payload":{"task":"t1"},"to":"worker-a"}"#);
            assert_eq!(m.destination(), "worker-a");
        }
        other => panic!("unexpected {other:?}"),
    }
    assert_eq!(peer_send("a", "b", b"{}").code(), 0);
}

#[test]
fn peer_send_refusals() {
    assert!(matches!(peer_send("a", "", b"{}"), PeerSend::BadTarget));
    assert_eq!(peer_send("a", "", b"{}").code(), -1);
    assert!(matches!(peer_send("a", "b", b"{oops"), PeerSend::BadPayload));
    assert_eq!(peer_send("a", "b", b"{oops").code(), -2);
}

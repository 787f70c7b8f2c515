use a_z::browser::json::JsonValue;
use a_z::cdp::server::{
    build_target_info, classify_connection, http_route, json_list_body, json_version_body, CdpConnection, CdpHttpRoute,
    NOT_FOUND_BODY,
};
use a_z::dom::parser::HtmlParser;
use a_z::tui::extract_page_content;

/// A `serde_json` value as the library's JSON value.
fn to_json(v: &serde_json::Value) -> JsonValue {
    match v {
        serde_json::Value::Null => JsonValue::Null,
        serde_json::Value::Bool(b) => JsonValue::Bool(*b),
        serde_json::Value::Number(n) => JsonValue::Number(n.to_string()),
        serde_json::Value::String(s) => JsonValue::Str(s.clone()),
        serde_json::Value::Array(a) => JsonValue::Array(a.iter().map(to_json).collect()),
        serde_json::Value::Object(m) => JsonValue::Object(m.iter().map(|(k, x)| (k.clone(), to_json(x))).collect()),
    }
}

/// The library's JSON value as a `serde_json` value.
fn as_serde(v: &JsonValue) -> serde_json::Value {
    match v {
        JsonValue::Null => serde_json::Value::Null,
        JsonValue::Bool(b) => serde_json::Value::Bool(*b),
        JsonValue::Number(n) => serde_json::Value::Number(n.parse().unwrap()),
        JsonValue::Str(s) => serde_json::Value::String(s.clone()),
        JsonValue::Array(a) => serde_json::Value::Array(a.iter().map(as_serde).collect()),
        JsonValue::Object(m) => serde_json::Value::Object(m.iter().map(|(k, x)| (k.clone(), as_serde(x))).collect()),
    }
}

#[test]
fn connections_from_elsewhere_are_refused() {
    let ws = "GET /devtools/page/x HTTP/1.1\r\nHost: 127.0.0.1:9222\r\nUpgrade: websocket\r\nConnection: Upgrade";
    assert_eq!(classify_connection(ws, true), CdpConnection::WebSocket);
    assert_eq!(classify_connection(ws, false), CdpConnection::Reject);
    let evil = "GET /json HTTP/1.1\r\nOrigin: https://evil.example\r\nUpgrade: websocket";
    assert_eq!(classify_connection(evil, true), CdpConnection::Reject);
    let local = "GET /json HTTP/1.1\r\nORIGIN:   http://localhost:3000\r\n";
    assert_eq!(classify_connection(local, true), CdpConnection::Http);
    let twice = "GET / HTTP/1.1\r\norigin:origin: http://127.0.0.1";
    assert_eq!(classify_connection(twice, true), CdpConnection::Http);
    assert_eq!(classify_connection("GET /json/version HTTP/1.1\r\nHost: x", true), CdpConnection::Http);
    assert_eq!(classify_connection("", true), CdpConnection::Http);
}

#[test]
fn discovery_endpoints() {
    assert_eq!(http_route("/json/version"), CdpHttpRoute::Version);
    assert_eq!(http_route("/json/version/"), CdpHttpRoute::Version);
    assert_eq!(http_route("/json"), CdpHttpRoute::List);
    assert_eq!(http_route("/json/list/"), CdpHttpRoute::List);
    assert_eq!(http_route("/json/new"), CdpHttpRoute::New);
    assert_eq!(http_route("/"), CdpHttpRoute::NotFound);
    assert_eq!(NOT_FOUND_BODY, r#"{"error":"not found"}"#);
    let v = as_serde(&json_version_body("b1"));
    assert_eq!(v["Browser"], "Bose/0.2.0");
    assert_eq!(v["webSocketDebuggerUrl"], "ws://localhost:9222/devtools/browser/b1");
    let t = as_serde(&build_target_info("p1", "about:blank"));
    assert_eq!(t["devtoolsFrontendUrl"], "/devtools/inspector.html?ws=localhost:9222/devtools/page/p1");
    assert_eq!(t["webSocketDebuggerUrl"], "ws://localhost:9222/devtools/page/p1");
    assert_eq!(t["url"], "about:blank");
    let l = as_serde(&json_list_body("p1", "https://a/"));
    assert_eq!(l.as_array().unwrap().len(), 1);
    assert_eq!(l[0]["id"], "p1");
}

#[test]
fn page_content_for_the_front_end() {
    let none = extract_page_content(None, "ignored", "https://typed/", 12);
    assert_eq!(none.url, "https://typed/");
    assert_eq!(none.title, "Error");
    assert_eq!(none.status, 0);
    assert_eq!(none.load_time_ms, 12);
    let doc = HtmlParser::new()
        .parse(
            "<html><head><title>Hello</title><script>1</script></head><body><p>x <a href=\"/n\">next</a></p><script>2</script></body></html>",
            "https://site/",
        )
        .unwrap();
    let c = extract_page_content(Some(&doc), "https://site/", "https://typed/", 30);
    assert_eq!(c.url, "https://site/");
    assert_eq!(c.status, 200);
    assert_eq!(c.title, "Hello");
    assert_eq!(c.links.len(), 1);
    assert_eq!(c.links[0].href, "https://site/n");
    assert_eq!(c.scripts.len(), 2);
    assert!(c.scripts.iter().all(|s| s.is_empty()));
    assert!(!c.rendered_lines.is_empty());
}

use a_z::browser::json::JsonValue;
use a_z::cdp::domains::az::AzDomain;
use a_z::cdp::domains::dom::DomConverter;
use a_z::cdp::domains::page::PageDomain;
use a_z::cdp::session::{
    attach_reply, evaluate_reply, navigate_reply, parse_error_response, read_cdp_message, response, security_origin, CdpSession, CdpStep,
};
use a_z::dom::document::Document;
use a_z::dom::parser::HtmlParser;

/// A `serde_json` value as the library's JSON value.
fn to_json(v: &serde_json::Value) -> JsonValue {
    match v {
        serde_json::Value::Null => JsonValue::Null,
        serde_json::Value::Bool(b) => JsonValue::Bool(*b),
        serde_json::Value::Number(n) => JsonValue::Number(n.to_string()),
        serde_json::Value::String(s) => JsonValue::Str(s.clone()),
        serde_json::Value::Array(a) => JsonValue::Array(a.iter().map(to_json).collect()),
        serde_json::Value::Object(m) => JsonValue::Object(m.iter().map(|(k, x)| (k.clone(), to_json(x))).collect()),
    }
}

/// The library's JSON value as a `serde_json` value.
fn as_serde(v: &JsonValue) -> serde_json::Value {
    match v {
        JsonValue::Null => serde_json::Value::Null,
        JsonValue::Bool(b) => serde_json::Value::Bool(*b),
        JsonValue::Number(n) => serde_json::Value::Number(n.parse().unwrap()),
        JsonValue::Str(s) => serde_json::Value::String(s.clone()),
        JsonValue::Array(a) => serde_json::Value::Array(a.iter().map(as_serde).collect()),
        JsonValue::Object(m) => serde_json::Value::Object(m.iter().map(|(k, x)| (k.clone(), as_serde(x))).collect()),
    }
}

fn want(text: &str) -> serde_json::Value {
    serde_json::from_str(text).unwrap()
}

fn params(text: &str) -> JsonValue {
    to_json(&serde_json::from_str(text).unwrap())
}

fn reply(step: CdpStep) -> serde_json::Value {
    match step {
        CdpStep::Reply(v) => as_serde(&v),
        _ => panic!("expected a reply"),
    }
}

fn page() -> Document {
    HtmlParser::new()
        .parse(
            "<html><head><title>T</title></head><body><h1 id=\"main\" class=\"big\">Hello</h1><p>x</p></body></html>",
            "https://example.com/",
        )
        .unwrap()
}

#[test]
fn browser_version_names_the_engine() {
    let mut s = CdpSession::new("page-1".to_string());
    let v = reply(s.dispatch("Browser.getVersion", &params("{}"), None, None));
    assert_eq!(v["product"], "Bose/0.2.0");
    assert_eq!(v["protocolVersion"], "1.3");
    assert_eq!(v["jsVersion"], "QuickJS");
}

#[test]
fn enable_and_disable_toggle_only_their_flag() {
    let mut s = CdpSession::new("t".to_string());
    let _ = s.dispatch("Page.enable", &params("{}"), None, None);
    assert!(s.state.page_enabled);
    assert!(!s.state.dom_enabled && !s.state.runtime_enabled && !s.state.network_enabled);
    let _ = s.dispatch("DOM.enable", &params("{}"), None, None);
    assert!(s.state.dom_enabled);
    let _ = s.dispatch("Page.disable", &params("{}"), None, None);
    assert!(!s.state.page_enabled);
    assert!(s.state.dom_enabled);
    let _ = s.dispatch("Network.getCookies", &params("{}"), None, None);
    assert!(s.state.dom_enabled && !s.state.page_enabled);
}

#[test]
fn targets_fall_back_to_blank_page() {
    let mut s = CdpSession::new("abc".to_string());
    let v = reply(s.dispatch("Target.getTargets", &params("{}"), None, None));
    assert_eq!(
        v,
        want(
            r#"{"targetInfos":[{"attached":true,"browserContextId":"default","canAccessOpener":false,
            "targetId":"abc","title":"Bose Browser","type":"page","url":"about:blank"}]}"#
        )
    );
    let v = reply(s.dispatch("Target.getTargetInfo", &params("{}"), Some("https://a.b/"), None));
    assert_eq!(v["targetInfo"]["url"], "https://a.b/");
    assert_eq!(v["targetInfo"]["targetId"], "abc");
}

#[test]
fn document_before_load_is_blank_root() {
    let mut s = CdpSession::new("t".to_string());
    let v = reply(s.dispatch("DOM.getDocument", &params("{}"), None, None));
    assert_eq!(
        v,
        want(
            r##"{"root":{"nodeId":0,"backendNodeId":0,"nodeType":9,"nodeName":"#document",
            "localName":"","nodeValue":"","childNodeCount":0}}"##
        )
    );
}

#[test]
fn document_of_loaded_page() {
    let doc = page();
    let mut s = CdpSession::new("t".to_string());
    let v = reply(s.dispatch("DOM.getDocument", &params(r#"{"depth": 1}"#), None, Some(&doc)));
    assert_eq!(v["root"]["nodeName"], "#document");
    assert_eq!(v["root"]["nodeType"], 9);
    let kids = v["root"]["children"].as_array().unwrap();
    assert_eq!(kids.len(), doc.nodes[0].children.len());
    assert!(kids[0].get("children").is_none());
}

#[test]
fn query_selector_and_attributes() {
    let doc = page();
    let mut s = CdpSession::new("t".to_string());
    let v = reply(s.dispatch("DOM.querySelector", &params(r#"{"nodeId": 0, "selector": "h1"}"#), None, Some(&doc)));
    let id = v["nodeId"].as_u64().unwrap() as usize;
    assert_eq!(doc.get_tag_name(id), "h1");
    let p = format!(r#"{{"nodeId": {}}}"#, id);
    let v = reply(s.dispatch("DOM.getAttributes", &params(&p), None, Some(&doc)));
    assert_eq!(v, want(r#"{"attributes":["id","main","class","big"]}"#));
    let v = reply(s.dispatch("DOM.querySelector", &params(r#"{"selector": "video"}"#), None, Some(&doc)));
    assert_eq!(v, want(r#"{"nodeId":0}"#));
    let v = reply(s.dispatch("DOM.querySelectorAll", &params(r#"{"selector": "p"}"#), None, Some(&doc)));
    assert_eq!(v["nodeIds"].as_array().unwrap().len(), 1);
    let v = reply(s.dispatch("DOM.getOuterHTML", &params(&p), None, Some(&doc)));
    assert_eq!(v["outerHTML"], "<h1 id=\"main\" class=\"big\">Hello</h1>");
}

#[test]
fn flattened_document_lists_every_node() {
    let doc = page();
    let mut s = CdpSession::new("t".to_string());
    let v = reply(s.dispatch("DOM.getFlattenedDocument", &params("{}"), None, Some(&doc)));
    assert_eq!(v["nodes"].as_array().unwrap().len(), doc.nodes.len());
    let v = reply(s.dispatch("DOM.getFlattenedDocument", &params("{}"), None, None));
    assert_eq!(v, want(r#"{"nodes":[]}"#));
}

#[test]
fn commands_needing_outside_work() {
    let mut s = CdpSession::new("t".to_string());
    match s.dispatch("Page.navigate", &params(r#"{"url": "https://x.org/"}"#), None, None) {
        CdpStep::Navigate(u) => assert_eq!(u, "https://x.org/"),
        _ => panic!(),
    }
    match s.dispatch("Page.navigate", &params("{}"), None, None) {
        CdpStep::Navigate(u) => assert_eq!(u, "about:blank"),
        _ => panic!(),
    }
    match s.dispatch("Page.reload", &params("{}"), Some("https://y.org/"), None) {
        CdpStep::Navigate(u) => assert_eq!(u, "https://y.org/"),
        _ => panic!(),
    }
    assert_eq!(reply(s.dispatch("Page.reload", &params("{}"), None, None)), want("{}"));
    match s.dispatch("Runtime.evaluate", &params("{}"), None, None) {
        CdpStep::Evaluate(e) => assert_eq!(e, "undefined"),
        _ => panic!(),
    }
    match s.dispatch("Target.attachToTarget", &params("{}"), None, None) {
        CdpStep::NewSession => {}
        _ => panic!(),
    }
    match s.dispatch("DOM.setAttributeValue", &params(r#"{"nodeId": 3, "name": "a", "value": "b"}"#), None, None) {
        CdpStep::SetAttribute(n, a, v) => assert_eq!((n, a.as_str(), v.as_str()), (3, "a", "b")),
        _ => panic!(),
    }
    match s.dispatch("DOM.removeAttribute", &params(r#"{"nodeId": 2, "name": "c"}"#), None, None) {
        CdpStep::RemoveAttribute(n, a) => assert_eq!((n, a.as_str()), (2, "c")),
        _ => panic!(),
    }
}

#[test]
fn constant_answers() {
    let mut s = CdpSession::new("t".to_string());
    assert_eq!(reply(s.dispatch("Something.unknown", &params("{}"), None, None)), want("{}"));
    assert_eq!(reply(s.dispatch("Emulation.canEmulate", &params("{}"), None, None)), want(r#"{"result":true}"#));
    assert_eq!(
        reply(s.dispatch("AZ.getState", &params("{}"), None, None)),
        want(r#"{"state":"ready","engine":"Bose","version":"0.2.0"}"#)
    );
    assert_eq!(reply(s.dispatch("Target.createTarget", &params("{}"), None, None)), want(r#"{"targetId":"t"}"#));
    let quads = reply(s.dispatch("DOM.getContentQuads", &params("{}"), None, None));
    assert_eq!(quads, want(r#"{"quads":[[0,0,0,0,0,0,0,0]]}"#));
    let m = reply(s.dispatch("Page.getLayoutMetrics", &params("{}"), None, None));
    assert_eq!(m["visualViewport"]["scale"], 1.0);
    assert_eq!(m["contentSize"]["width"], 1280);
}

#[test]
fn navigation_answers_and_events() {
    let (r, events) = navigate_reply("f", "l", "https://example.com/a?b", "12.5", Ok(()));
    assert_eq!(as_serde(&r), want(r#"{"frameId":"f","loaderId":"l"}"#));
    assert_eq!(events.len(), 3);
    let nav = as_serde(&events[0]);
    assert_eq!(nav["method"], "Page.frameNavigated");
    assert_eq!(nav["params"]["frame"]["securityOrigin"], "https://example.com");
    assert_eq!(as_serde(&events[2]), want(r#"{"method":"Page.loadEventFired","params":{"timestamp":12.5}}"#));
    let (r, events) = navigate_reply("f", "l", "u", "1", Err("boom".to_string()));
    assert_eq!(as_serde(&r), want(r#"{"frameId":"f","loaderId":"l","errorText":"boom"}"#));
    assert!(events.is_empty());
}

#[test]
fn small_replies() {
    assert_eq!(security_origin("not a url"), "");
    assert_eq!(security_origin("http://h:8080/x"), "http://h");
    assert_eq!(as_serde(&evaluate_reply("42")), want(r#"{"result":{"type":"string","value":"42"}}"#));
    assert_eq!(as_serde(&attach_reply("s1")), want(r#"{"sessionId":"s1"}"#));
    let r = response(params("7"), params("{}"));
    assert_eq!(as_serde(&r), want(r#"{"id":7,"result":{}}"#));
    let e = parse_error_response("bad");
    assert_eq!(as_serde(&e), want(r#"{"id":0,"error":{"code":-32700,"message":"Parse error: bad"}}"#));
}

#[test]
fn domain_answers() {
    let s = AzDomain::get_state().unwrap();
    assert_eq!(as_serde(&s), want(r#"{"state":"ready","version":"0.1.0"}"#));
    let n = PageDomain::navigate("x").unwrap();
    assert_eq!(as_serde(&n), want(r#"{"frameId":"main","loaderId":"loader1"}"#));
    let doc = page();
    assert_eq!(as_serde(&DomConverter::node_to_cdp(&doc, 999, 0)), serde_json::Value::Null);
    let root = as_serde(&DomConverter::node_to_cdp(&doc, 0, 0));
    assert!(root.get("children").is_none());
    assert_eq!(root["childNodeCount"], doc.nodes[0].children.len());
}

#[test]
fn commands_are_read_from_messages() {
    let (id, method, params) = read_cdp_message("{\"id\":3,\"method\":\"Page.enable\"}").unwrap();
    assert_eq!(id, 3);
    assert_eq!(method, "Page.enable");
    assert_eq!(as_serde(&params), want("{}"));
    let (_, _, params) = read_cdp_message("{\"id\":4,\"method\":\"DOM.getDocument\",\"params\":{\"depth\":2},\"x\":1}").unwrap();
    assert_eq!(as_serde(&params), want("{\"depth\":2}"));
    let (_, _, params) = read_cdp_message("{\"id\":5,\"method\":\"m\",\"params\":null}").unwrap();
    assert_eq!(as_serde(&params), want("{}"));
}

#[test]
fn messages_that_are_not_commands_get_parse_errors() {
    let e = serde_json::from_str::<serde_json::Value>("{oops").unwrap_err().to_string();
    let reply = read_cdp_message("{oops").unwrap_err();
    assert_eq!(as_serde(&reply)["error"]["message"], serde_json::Value::String(format!("Parse error: {}", e)));
    assert_eq!(as_serde(&reply)["id"], want("0"));
    assert_eq!(as_serde(&reply)["error"]["code"], want("-32700"));
    let reply = read_cdp_message("{\"id\":-1,\"method\":\"m\"}").unwrap_err();
    assert_eq!(as_serde(&reply)["error"]["message"], want("\"Parse error: invalid type: expected u64\""));
    let reply = read_cdp_message("{\"id\":1}").unwrap_err();
    assert_eq!(as_serde(&reply)["error"]["message"], want("\"Parse error: missing field `method`\""));
    assert!(read_cdp_message("[1]").is_err());
}

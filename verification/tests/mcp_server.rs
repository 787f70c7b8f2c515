use a_z::browser::assets::PageAssets;
use a_z::browser::json::JsonValue;
use a_z::dom::document::Document;
use a_z::dom::parser::HtmlParser;
use a_z::mcp::protocol::{read_rpc, request_of, rpc_err, rpc_ok, JsonRpcRequest, RpcError, RpcErrorCode, RpcInput};
use a_z::mcp::server::{
    content_length, dispatch, find_header_end, http_response, info_body, is_batch, not_found_body, request_target,
    route, McpStep, Route, PREFLIGHT_RESPONSE,
};
use a_z::mcp::tools::{
    call_tool, collect_visible_text, navigate_result, node_summary, reload_result, text_result, tool_error, tool_list,
    ToolStep,
};

/// A `serde_json` value as the library's JSON value.
fn to_json(v: &serde_json::Value) -> JsonValue {
    match v {
        serde_json::Value::Null => JsonValue::Null,
        serde_json::Value::Bool(b) => JsonValue::Bool(*b),
        serde_json::Value::Number(n) => JsonValue::Number(n.to_string()),
        serde_json::Value::String(s) => JsonValue::Str(s.clone()),
        serde_json::Value::Array(a) => JsonValue::Array(a.iter().map(to_json).collect()),
        serde_json::Value::Object(m) => JsonValue::Object(m.iter().map(|(k, x)| (k.clone(), to_json(x))).collect()),
    }
}

/// The library's JSON value as a `serde_json` value.
fn as_serde(v: &JsonValue) -> serde_json::Value {
    match v {
        JsonValue::Null => serde_json::Value::Null,
        JsonValue::Bool(b) => serde_json::Value::Bool(*b),
        JsonValue::Number(n) => serde_json::Value::Number(n.parse().unwrap()),
        JsonValue::Str(s) => serde_json::Value::String(s.clone()),
        JsonValue::Array(a) => serde_json::Value::Array(a.iter().map(as_serde).collect()),
        JsonValue::Object(m) => serde_json::Value::Object(m.iter().map(|(k, x)| (k.clone(), as_serde(x))).collect()),
    }
}

fn want(text: &str) -> serde_json::Value {
    serde_json::from_str(text).unwrap()
}

fn json(text: &str) -> JsonValue {
    to_json(&serde_json::from_str(text).unwrap())
}

fn request(id: Option<&str>, method: &str, params: Option<&str>) -> JsonRpcRequest {
    JsonRpcRequest { id: id.map(json), method: method.to_string(), params: params.map(json) }
}

fn respond(step: McpStep) -> serde_json::Value {
    match step {
        McpStep::Respond(v) => as_serde(&v),
        McpStep::CallTool(..) => panic!("expected a response"),
    }
}

fn done(step: ToolStep) -> serde_json::Value {
    match step {
        ToolStep::Done(v) => as_serde(&v),
        _ => panic!("expected a result"),
    }
}

fn page() -> Document {
    HtmlParser::new()
        .parse(
            "<html><head><title>Shop</title><script>var x=1;</script></head><body><h1 id=\"t\" class=\"c\">Hi  there</h1>\
             <a href=\"/a\"> A link </a><a>bare</a></body></html>",
            "https://example.com/",
        )
        .unwrap()
}

#[test]
fn catalogue_of_tools() {
    let v = as_serde(&tool_list());
    let tools = v.as_array().unwrap();
    assert_eq!(tools.len(), 12);
    let names: Vec<&str> = tools.iter().map(|t| t["name"].as_str().unwrap()).collect();
    assert_eq!(
        names,
        vec![
            "navigate", "get_content", "get_text", "get_title", "get_links", "query_selector",
            "query_selector_all", "evaluate", "get_node_info", "page_status", "get_assets", "reload"
        ]
    );
    assert_eq!(tools[0]["inputSchema"]["required"], want(r#"["url"]"#));
    assert_eq!(tools[6]["inputSchema"]["properties"]["limit"]["default"], 50);
    assert_eq!(tools[1]["inputSchema"], want(r#"{"type":"object","properties":{}}"#));
}

#[test]
fn lifecycle_methods() {
    let v = respond(dispatch(&request(Some("1"), "initialize", None), None, None));
    assert_eq!(v["jsonrpc"], "2.0");
    assert_eq!(v["id"], 1);
    assert_eq!(v["result"]["protocolVersion"], "2024-11-05");
    assert_eq!(v["result"]["capabilities"]["tools"]["listChanged"], false);
    let v = respond(dispatch(&request(Some("\"p\""), "ping", None), None, None));
    assert_eq!(v, want(r#"{"jsonrpc":"2.0","id":"p","result":{}}"#));
    let v = respond(dispatch(&request(None, "tools/list", None), None, None));
    assert_eq!(v["id"], serde_json::Value::Null);
    assert_eq!(v["result"]["tools"].as_array().unwrap().len(), 12);
}

#[test]
fn tool_calls_and_errors() {
    let v = respond(dispatch(&request(Some("2"), "tools/call", Some("{}")), None, None));
    assert_eq!(v, want(r#"{"jsonrpc":"2.0","id":2,"error":{"code":-32602,"message":"Missing tool name"}}"#));
    match dispatch(&request(Some("3"), "tools/call", Some(r#"{"name":"get_title"}"#)), None, None) {
        McpStep::CallTool(n, a) => {
            assert_eq!(n, "get_title");
            assert_eq!(as_serde(&a), want("{}"));
        }
        _ => panic!(),
    }
    let v = respond(dispatch(&request(Some("4"), "nope", None), None, None));
    assert_eq!(v["error"]["code"], -32601);
    assert_eq!(v["error"]["message"], "Method not found: nope");
}

#[test]
fn resources_and_prompts() {
    let doc = page();
    let v = respond(dispatch(&request(Some("1"), "resources/list", None), Some("https://e.x/"), Some(&doc)));
    assert_eq!(v["result"]["resources"][0]["description"], "Serialized Bose DOM for https://e.x/");
    let v = respond(dispatch(&request(Some("1"), "resources/read", Some(r#"{"uri":"bose://page/text"}"#)), None, None));
    assert_eq!(v["result"]["contents"][0]["text"], "No page loaded. Use navigate first.");
    let v = respond(dispatch(
        &request(Some("1"), "resources/read", Some(r#"{"uri":"bose://page/text"}"#)),
        Some("u"),
        Some(&doc),
    ));
    assert_eq!(v["result"]["contents"][0]["text"], "Shop Hi  there A link bare ");
    let v = respond(dispatch(&request(Some("1"), "resources/read", Some(r#"{"uri":"x"}"#)), None, None));
    assert_eq!(v["error"]["message"], "Unknown resource: x");
    let v = respond(dispatch(
        &request(Some("1"), "prompts/get", Some(r#"{"name":"summarize_page"}"#)),
        Some("https://s/"),
        None,
    ));
    assert_eq!(
        v["result"]["messages"][0]["content"]["text"],
        "Please summarize the content of this page: https://s/\n\nUse the get_text tool to read its content first."
    );
    let v = respond(dispatch(
        &request(Some("1"), "prompts/get", Some(r#"{"name":"extract_data","arguments":{"fields":"price"}}"#)),
        None,
        None,
    ));
    assert_eq!(
        v["result"]["messages"][0]["content"]["text"],
        "Extract the following fields from this page: price\nURL: about:blank\n\nUse query_selector and get_text tools to find the data."
    );
    let v = respond(dispatch(&request(Some("1"), "prompts/list", None), None, None));
    assert_eq!(v["result"]["prompts"][1]["arguments"][0]["required"], false);
}

#[test]
fn page_tools() {
    let doc = page();
    let args = json("{}");
    let v = done(call_tool("get_title", &args, Some("u"), Some(&doc), None, "0.000"));
    assert_eq!(v, want(r#"{"content":[{"type":"text","text":"Shop"}]}"#));
    let v = done(call_tool("get_title", &args, None, None, None, "0.000"));
    assert_eq!(v, want(r#"{"isError":true,"content":[{"type":"text","text":"No page loaded."}]}"#));
    let v = done(call_tool("get_links", &args, Some("u"), Some(&doc), None, "0.000"));
    let links: serde_json::Value = serde_json::from_str(v["content"][0]["text"].as_str().unwrap()).unwrap();
    assert_eq!(links, want(r#"[{"href":"/a","text":"A link"},{"href":"","text":"bare"}]"#));
    let v = done(call_tool("query_selector", &json(r#"{"selector":"h1"}"#), None, Some(&doc), None, ""));
    let summary: serde_json::Value = serde_json::from_str(v["content"][0]["text"].as_str().unwrap()).unwrap();
    assert_eq!(summary["tag"], "h1");
    assert_eq!(summary["id"], "t");
    assert_eq!(summary["class"], "c");
    assert_eq!(summary["text"], "Hi  there");
    let v = done(call_tool("query_selector", &json("{}"), None, Some(&doc), None, ""));
    assert_eq!(v["content"][0]["text"], "Missing required argument: selector");
    let v = done(call_tool("query_selector", &json(r#"{"selector":"video"}"#), None, Some(&doc), None, ""));
    assert_eq!(v["content"][0]["text"], "No element matched 'video'");
    let v = done(call_tool("query_selector_all", &json(r#"{"selector":"a","limit":1}"#), None, Some(&doc), None, ""));
    assert!(v["content"][0]["text"].as_str().unwrap().starts_with("Found 1 element(s):\n"));
    let v = done(call_tool("get_node_info", &json(r#"{"node_id":999}"#), None, Some(&doc), None, ""));
    assert_eq!(v["content"][0]["text"], "nodeId 999 not found");
    let v = done(call_tool("frobnicate", &args, None, None, None, ""));
    assert_eq!(v["content"][0]["text"], "Unknown tool: frobnicate");
}

#[test]
fn status_and_assets() {
    let doc = page();
    let assets = PageAssets {
        stylesheets: vec!["s.css".to_string()],
        scripts: vec![],
        images: vec!["i.png".to_string(), "j.png".to_string()],
        fonts: vec![],
        prefetch: vec![],
    };
    let v = done(call_tool("page_status", &json("{}"), Some("https://e/"), Some(&doc), Some(&assets), "1.500"));
    let text = v["content"][0]["text"].as_str().unwrap();
    assert!(text.starts_with("URL:        https://e/\nTitle:      Shop\nDOM nodes:  "));
    assert!(text.contains("\nAssets:     3\nTimestamp:  1.500\nEngine:     Bose/0.4.0"));
    let v = done(call_tool("get_assets", &json("{}"), None, None, Some(&assets), ""));
    let out: serde_json::Value = serde_json::from_str(v["content"][0]["text"].as_str().unwrap()).unwrap();
    assert_eq!(out["total"], 3);
    assert_eq!(out["images"], want(r#"["i.png","j.png"]"#));
}

#[test]
fn outside_tool_steps() {
    match call_tool("navigate", &json(r#"{"url":"https://a/"}"#), None, None, None, "") {
        ToolStep::Navigate(u) => assert_eq!(u, "https://a/"),
        _ => panic!(),
    }
    match call_tool("evaluate", &json(r#"{"expression":"1+1"}"#), None, None, None, "") {
        ToolStep::Evaluate(e) => assert_eq!(e, "1+1"),
        _ => panic!(),
    }
    match call_tool("reload", &json("{}"), Some("https://r/"), None, None, "") {
        ToolStep::Reload(u) => assert_eq!(u, "https://r/"),
        _ => panic!(),
    }
    let v = done(call_tool("reload", &json("{}"), None, None, None, ""));
    assert_eq!(v["content"][0]["text"], "No page loaded. Use navigate first.");
    let v = as_serde(&navigate_result("https://a/", Err("down".to_string()), None, None));
    assert_eq!(v["content"][0]["text"], "Navigation failed: down");
    let doc = page();
    let v = as_serde(&navigate_result("https://a/", Ok(()), Some("https://a/"), Some(&doc)));
    let t = v["content"][0]["text"].as_str().unwrap();
    assert!(t.starts_with("Navigated to: https://a/\nTitle: Shop\nNodes in DOM: "));
    assert!(t.ends_with("\nEngine: Bose"));
    assert_eq!(as_serde(&reload_result("x", Ok(())))["content"][0]["text"], "Reloaded: x");
    assert_eq!(as_serde(&text_result("a".to_string())), want(r#"{"content":[{"type":"text","text":"a"}]}"#));
    assert_eq!(as_serde(&tool_error("b".to_string()))["isError"], true);
}

#[test]
fn node_summaries() {
    let doc = page();
    assert_eq!(as_serde(&node_summary(&doc, 12345)), serde_json::Value::Null);
    let h1 = doc.find_element("h1").unwrap();
    let v = as_serde(&node_summary(&doc, h1));
    assert_eq!(v["innerHTML"], "Hi  there");
    assert_eq!(v["nodeId"], h1);
    assert_eq!(collect_visible_text(&doc, 0), "Shop Hi  there A link bare ");
}

#[test]
fn http_side() {
    let head = "POST /rpc HTTP/1.1\r\nHost: x\r\nContent-Length: 42";
    assert_eq!(content_length(head), 42);
    assert_eq!(content_length("GET / HTTP/1.1\r\ncontent-LENGTH:  +7 \r\nX: y"), 7);
    assert_eq!(content_length("GET / HTTP/1.1\r\nHost: x"), 0);
    assert_eq!(content_length("GET / HTTP/1.1\r\nContent-Length: abc\r\nContent-Length: 5"), 0);
    assert_eq!(request_target(head), ("POST".to_string(), "/rpc".to_string()));
    assert_eq!(request_target(""), ("GET".to_string(), "/".to_string()));
    assert_eq!(route("OPTIONS", "/whatever"), Route::Preflight);
    assert_eq!(route("GET", "/mcp"), Route::Info);
    assert_eq!(route("GET", "/tools"), Route::Tools);
    assert_eq!(route("POST", "/"), Route::Rpc);
    assert_eq!(route("PUT", "/rpc"), Route::NotFound);
    assert_eq!(
        http_response("200 OK", "{\"é\":1}"),
        "HTTP/1.1 200 OK\r\nContent-Type: application/json\r\nContent-Length: 8\r\nAccess-Control-Allow-Origin: *\r\nConnection: close\r\n\r\n{\"é\":1}"
    );
    assert!(is_batch("  \n[{}]"));
    assert!(!is_batch("{}"));
    assert!(!is_batch("   "));
    assert_eq!(find_header_end(b"GET / HTTP/1.1\r\nA: b\r\n\r\nbody"), Some(20));
    assert_eq!(find_header_end(b"GET /"), None);
    assert!(PREFLIGHT_RESPONSE.starts_with("HTTP/1.1 204 No Content\r\n"));
    assert_eq!(as_serde(&info_body())["endpoints"]["rpc"], "POST /rpc");
    assert_eq!(as_serde(&not_found_body()), want(r#"{"error":"not found","paths":["/","/rpc","/tools"]}"#));
}

#[test]
fn every_response_answers_its_request() {
    for m in ["initialize", "ping", "tools/list", "tools/call", "resources/list", "resources/read", "prompts/list", "prompts/get", "zzz"] {
        match dispatch(&request(Some("\"q\""), m, Some("{}")), None, None) {
            McpStep::Respond(v) => {
                let v = as_serde(&v);
                assert_eq!(v["id"], "q", "{}", m);
                assert_eq!(v["jsonrpc"], "2.0", "{}", m);
            }
            McpStep::CallTool(..) => panic!("{}", m),
        }
    }
    assert_eq!(as_serde(&rpc_ok(None, json("1"))), want(r#"{"jsonrpc":"2.0","id":null,"result":1}"#));
    assert_eq!(
        as_serde(&rpc_err(Some(json("5")), RpcErrorCode::ParseError, "x".to_string())),
        want(r#"{"jsonrpc":"2.0","id":5,"error":{"code":-32700,"message":"x"}}"#)
    );
}

#[test]
fn one_request_is_read_from_its_body() {
    match read_rpc("{\"jsonrpc\":\"2.0\",\"id\":7,\"method\":\"ping\",\"params\":null}") {
        RpcInput::One(req) => {
            assert_eq!(req.method, "ping");
            assert_eq!(as_serde(req.id.as_ref().unwrap()), want("7"));
            assert!(req.params.is_none());
        }
        _ => panic!("expected one request"),
    }
    match read_rpc("{\"id\":null,\"method\":\"tools/list\",\"params\":{\"a\":1}}") {
        RpcInput::One(req) => {
            assert!(req.id.is_none());
            assert_eq!(as_serde(req.params.as_ref().unwrap()), want("{\"a\":1}"));
        }
        _ => panic!("expected one request"),
    }
}

#[test]
fn batches_are_read_whole_or_answered_whole() {
    match read_rpc("  [{\"id\":1,\"method\":\"ping\"},{\"method\":\"initialized\"}]") {
        RpcInput::Many(reqs) => {
            assert_eq!(reqs.len(), 2);
            assert_eq!(reqs[1].method, "initialized");
            assert!(reqs[1].id.is_none());
        }
        _ => panic!("expected a batch"),
    }
    match read_rpc("[{\"id\":1,\"method\":\"ping\"},{\"id\":2}]") {
        RpcInput::Reply(v) => assert_eq!(
            as_serde(&v),
            want("[{\"error\":{\"code\":-32700,\"message\":\"Parse error: missing field `method`\"},\"id\":null,\"jsonrpc\":\"2.0\"}]")
        ),
        _ => panic!("expected a reply"),
    }
}

#[test]
fn bodies_that_are_not_requests_get_parse_errors() {
    match read_rpc("not json") {
        RpcInput::Reply(v) => {
            let s = as_serde(&v);
            assert_eq!(s["error"]["code"], want("-32700"));
            let e = serde_json::from_str::<serde_json::Value>("not json").unwrap_err().to_string();
            assert_eq!(s["error"]["message"], serde_json::Value::String(format!("Parse error: {}", e)));
            assert_eq!(s["id"], serde_json::Value::Null);
        }
        _ => panic!("expected a reply"),
    }
    match read_rpc("{\"id\":1,\"method\":5}") {
        RpcInput::Reply(v) => assert_eq!(as_serde(&v)["error"]["message"], want("\"Parse error: invalid type: expected a string\"")),
        _ => panic!("expected a reply"),
    }
    assert!(matches!(request_of(&JsonValue::Number("5".to_string())), Err(RpcError::NotObject)));
    assert!(matches!(request_of(&to_json(&want("{\"id\":1}"))), Err(RpcError::MissingMethod)));
}

use a_z::bitfox::{bitfox_inspect, is_ip_address, is_private_ip, BitFoxContext, BitFoxDecision};
use a_z::browser::json::JsonValue;
use a_z::browser::resolve_script_url;
use a_z::browser::pipeline::{build_stages, normalize_url, PipelineConfig, StageKind};
use a_z::bitfox::js_hooks::HookVerdict;
use a_z::bitfox::parse_u8_exec;
use a_z::browser::video::{classify, extract_manifest_url, extract_youtube_id, VideoType};
use a_z::js::context::ScriptContext;
use a_z::js::runtime::{JsContext, JsRuntime};
use a_z::js::script::ScriptExecutor;
use a_z::network::{ConnectivityMode, NetworkController};
use a_z::tui::app::{App, PageContent};
use a_z::http::cache::{CacheEntry, HttpCache};
use a_z::http::headers::{build_headers, request_headers};
use a_z::dom::forms::{extract_forms, Form, FormField};
use a_z::browser::video::VideoInfo;
use a_z::browser::nav_cache::NavCache;
use a_z::dom::walker::RichSpan;
use a_z::tui::view::{page_lines, TextRole};
use a_z::tui::events::resolve_input;
use a_z::vulturine::css::{collapse_ws, default_display, heading_level, parse_inline};

fn inspect(url: &str) -> BitFoxDecision {
    bitfox_inspect(BitFoxContext {
        request_url: url.to_string(),
        content_type: "text/html".to_string(),
        origin_signature: None,
        payload_hash: String::new(),
        timestamp: 0,
        session_id: "s".to_string(),
    })
}

#[test]
fn bitfox_decisions() {
    assert_eq!(inspect("not a url"), BitFoxDecision::Block);
    assert_eq!(inspect("http://192.168.1.10/admin"), BitFoxDecision::Block);
    assert_eq!(inspect("http://10.0.0.1/"), BitFoxDecision::Block);
    assert_eq!(inspect("http://8.8.8.8/"), BitFoxDecision::Flag);
    assert_eq!(inspect("http://localhost:3000/"), BitFoxDecision::Block);
    assert_eq!(inspect("http://printer.local/"), BitFoxDecision::Block);
    assert_eq!(inspect("https://stats.doubleclick.net/x"), BitFoxDecision::Block);
    assert_eq!(inspect("https://segment.io/"), BitFoxDecision::Block);
    assert_eq!(inspect("https://notdoubleclick.net/"), BitFoxDecision::Allow);
    assert_eq!(inspect("https://example.com:4444/"), BitFoxDecision::Flag);
    assert_eq!(inspect("ftp://example.com/file"), BitFoxDecision::Flag);
    assert_eq!(inspect("https://example.com/"), BitFoxDecision::Allow);
    let long = format!("https://{}.{}.com/", "a".repeat(45), "b".repeat(45));
    assert_eq!(inspect(&long), BitFoxDecision::Flag);
}

#[test]
fn ip_address_rules() {
    assert!(is_ip_address("1.2.3.4"));
    assert!(!is_ip_address("1.2.3"));
    assert!(!is_ip_address("1.2.3.256"));
    assert!(is_private_ip("10.1.2.3"));
    assert!(is_private_ip("172.16.0.1"));
    assert!(!is_private_ip("172.32.0.1"));
    assert!(is_private_ip("192.168.0.1"));
    assert!(is_private_ip("127.0.0.1"));
    assert!(!is_private_ip("8.8.4.4"));
}

#[test]
fn typed_addresses() {
    assert_eq!(resolve_input("  https://a.b/c ".to_string()), "https://a.b/c");
    assert_eq!(resolve_input("example.com".to_string()), "https://example.com");
    assert_eq!(resolve_input("rust lang!".to_string()), "https://search.brave.com/search?q=rust+lang%21");
    assert_eq!(resolve_input("é".to_string()), "https://search.brave.com/search?q=%C3%A9");
    assert_eq!(normalize_url("example.com").unwrap(), "https://example.com/");
    assert_eq!(normalize_url("https//example.com/x").unwrap(), "https://example.com/x");
    assert!(normalize_url("http://").is_err());
}

#[test]
fn pipeline_stages() {
    let cfg = PipelineConfig::default();
    assert_eq!(
        build_stages(&cfg),
        vec![
            StageKind::NormalizeUrl,
            StageKind::JsSecurity,
            StageKind::BitFox,
            StageKind::HttpFetch,
            StageKind::ParseHtml,
            StageKind::YoutubeHydrate,
            StageKind::Serialize
        ]
    );
    let cfg = PipelineConfig { stages: vec!["Serialize".to_string(), "Bogus".to_string(), "BitFox".to_string()] };
    assert_eq!(
        build_stages(&cfg),
        vec![StageKind::Serialize, StageKind::BitFox, StageKind::HttpFetch, StageKind::ParseHtml]
    );
}

#[test]
fn video_kinds() {
    assert_eq!(classify("https://cdn/x/master.m3u8"), VideoType::Hls);
    assert_eq!(classify("https://cdn/x/manifest.mpd"), VideoType::Dash);
    assert_eq!(classify("https://www.youtube.com/watch?v=abc"), VideoType::YouTube);
    assert_eq!(extract_youtube_id("https://www.youtube.com/watch?v=dQw4w9WgXcQ&t=1"), Some("dQw4w9WgXcQ".to_string()));
    assert_eq!(extract_youtube_id("https://youtu.be/abc123"), Some("abc123".to_string()));
}

fn to_json(v: &serde_json::Value) -> JsonValue {
    match v {
        serde_json::Value::Null => JsonValue::Null,
        serde_json::Value::Bool(b) => JsonValue::Bool(*b),
        serde_json::Value::Number(n) => JsonValue::Number(n.to_string()),
        serde_json::Value::String(s) => JsonValue::Str(s.clone()),
        serde_json::Value::Array(a) => JsonValue::Array(a.iter().map(to_json).collect()),
        serde_json::Value::Object(m) => JsonValue::Object(m.iter().map(|(k, x)| (k.clone(), to_json(x))).collect()),
    }
}

#[test]
fn json_numbers() {
    let text = r#"{"a": 42, "b": -7, "c": 1.5, "d": "x", "e": 18446744073709551615}"#;
    let v = to_json(&serde_json::from_str(text).unwrap());
    assert_eq!(v.get_key("a").unwrap().as_u64(), Some(42));
    assert_eq!(v.get_key("a").unwrap().as_i64(), Some(42));
    assert_eq!(v.get_key("b").unwrap().as_u64(), None);
    assert_eq!(v.get_key("b").unwrap().as_i64(), Some(-7));
    assert_eq!(v.get_key("c").unwrap().as_u64(), None);
    assert_eq!(v.get_key("d").unwrap().as_i64(), None);
    assert_eq!(v.get_key("e").unwrap().as_u64(), Some(u64::MAX));
    assert_eq!(v.get_key("e").unwrap().as_i64(), None);
    let copy = v.duplicate();
    assert_eq!(format!("{:?}", copy), format!("{:?}", v));
}

#[test]
fn outside_text_functions_through_the_library() {
    // Upper-casing of a form's method.
    let forms = extract_forms(r#"<form action="/s" method="post"><input name="q"></form>"#);
    assert_eq!(forms.len(), 1);
    assert_eq!(forms[0].method, "POST");
    // Joining and parsing of script URLs.
    assert_eq!(resolve_script_url("../c.js", "https://e.com/a/b"), Some("https://e.com/c.js".to_string()));
    assert_eq!(resolve_script_url("x.js", "nope"), None);
    assert_eq!(resolve_script_url("//cdn.test/x.js", "http://e.com/"), Some("http://cdn.test/x.js".to_string()));
    assert_eq!(resolve_script_url("HTTPS://Cdn.Test/x.js", "nope"), Some("https://cdn.test/x.js".to_string()));
    assert_eq!(resolve_script_url("ftp://cdn.test/x.js", "https://e.com/"), None);
}

#[test]
fn request_headers_by_site() {
    let d = build_headers();
    assert_eq!(d.len(), 9);
    assert_eq!(d[0], ("accept", "text/html,application/xhtml+xml,application/xml;q=0.9,*/*;q=0.8"));
    assert_eq!(d[8], ("DNT", "1"));
    assert_eq!(request_headers("https://www.youtube.com/watch?v=1"), vec![("Cookie", "SOCS=CAE=; CONSENT=YES+cb")]);
    let a = request_headers("https://www.amazon.de/dp/1");
    assert_eq!(a.len(), 7);
    assert_eq!(a[2], ("Cache-Control", "no-cache"));
    assert!(request_headers("https://example.com/").is_empty());
    assert!(request_headers("not a url").is_empty());
}

#[test]
fn http_cache_read_after_write() {
    let mut cache = HttpCache::new();
    assert!(cache.get("https://a.test/").is_none());
    cache.set("https://a.test/".to_string(), CacheEntry::new("one".to_string(), "text/html".to_string()));
    cache.set("https://b.test/".to_string(), CacheEntry::new("two".to_string(), "text/plain".to_string()));
    let a = cache.get("https://a.test/").unwrap();
    assert_eq!(a.content, "one");
    assert_eq!(a.content_type, "text/html");
    assert_eq!(a.expires, None);
    cache.set("https://a.test/".to_string(), CacheEntry::new("three".to_string(), "text/html".to_string()));
    assert_eq!(cache.get("https://a.test/").unwrap().content, "three");
    assert_eq!(cache.get("https://b.test/").unwrap().content, "two");
    cache.clear();
    assert!(cache.get("https://a.test/").is_none());
    assert!(cache.get("https://b.test/").is_none());
}

#[test]
fn inline_style_declarations() {
    let d = parse_inline(" Color : RED; ;padding:4px;bad; background: url(a:b)");
    assert_eq!(
        d,
        vec![
            ("color".to_string(), "red".to_string()),
            ("padding".to_string(), "4px".to_string()),
            ("background".to_string(), "url(a:b)".to_string()),
        ]
    );
    assert!(parse_inline("").is_empty());
    let m: std::collections::HashMap<String, String> = parse_inline("color: red; color: blue").into_iter().collect();
    assert_eq!(m.get("color").map(|s| s.as_str()), Some("blue"));
}

#[test]
fn layout_defaults_and_whitespace() {
    assert_eq!(default_display("span"), "inline");
    assert_eq!(default_display("abbr"), "inline");
    assert_eq!(default_display("div"), "block");
    assert_eq!(heading_level("h1"), Some(1));
    assert_eq!(heading_level("h6"), Some(6));
    assert_eq!(heading_level("h7"), None);
    assert_eq!(collapse_ws("  a \n\t b  "), "a b ");
    assert_eq!(collapse_ws("\r\n"), "");
    assert_eq!(collapse_ws("x"), "x");
}

#[test]
fn small_engine_pieces() {
    assert!(HookVerdict::Allow.lets_next_run());
    assert!(!HookVerdict::Block { reason: "r".to_string() }.lets_next_run());
    assert!(!HookVerdict::Rewrite("https://x.test/".to_string()).lets_next_run());

    let d = |s: &str| s.chars().collect::<Vec<char>>();
    assert_eq!(parse_u8_exec(&d("255")), Some(255));
    assert_eq!(parse_u8_exec(&d("+7")), Some(7));
    assert_eq!(parse_u8_exec(&d("256")), None);
    assert_eq!(parse_u8_exec(&d("")), None);
    assert_eq!(parse_u8_exec(&d("1a")), None);

    let html = d(r#"x src='/live/a.m3u8' y"#);
    assert_eq!(extract_manifest_url(&html, ".m3u8"), Some("/live/a.m3u8".to_string()));
    assert_eq!(extract_manifest_url(&d(r#""a.mpd""#), ".mpd"), None);

    let net = NetworkController::new();
    assert!(matches!(net.get_mode(), ConnectivityMode::Direct));
    net.set_mode(ConnectivityMode::Tor);
    assert!(matches!(net.get_mode(), ConnectivityMode::Tor));

    assert_eq!(JsRuntime::new().execute("1+1").unwrap(), "");
    let ctx = std::sync::Arc::new(JsContext::new().unwrap());
    assert_eq!(ScriptExecutor::new(ScriptContext::new(ctx)).execute("x").unwrap(), "");

    let page = PageContent {
        url: "https://p.test/".to_string(),
        title: String::new(),
        html: "<div data-reactroot>".to_string(),
        links: Vec::new(),
        scripts: vec![String::new(); 11],
        load_time_ms: 0,
        status: 200,
        videos: Vec::new(),
        forms: Vec::new(),
        rendered_lines: Vec::new(),
    };
    assert_eq!(App::detect_complexity(&page), 4);
}

#[test]
fn unclosed_field_tags_run_to_the_end() {
    let open = extract_forms(r#"<form action="/a"><input name="q""#);
    assert_eq!(open.len(), 1);
    assert_eq!(open[0].fields.len(), 1);
    assert_eq!(open[0].fields[0].name, "q");
    assert_eq!(extract_forms("<form action=\"/b\"></form").len(), 1);
    let ok = extract_forms(r#"<form action="/a"><input name="q" type="search"></form>"#);
    assert_eq!(ok.len(), 1);
    assert_eq!(ok[0].action, "/a");
    assert_eq!(ok[0].method, "GET");
    assert_eq!(ok[0].fields[0].field_type, "search");
}

#[test]
fn form_names_are_lowered_by_unicode_rules() {
    let forms = extract_forms("<FORM ACTION=\"/Suche/Ä\" METHOD=\"post\"><INPUT NAME=\"Wort\" value=\"Äpfel\"></FORM>");
    assert_eq!(forms.len(), 1);
    assert_eq!(forms[0].action, "/suche/ä");
    assert_eq!(forms[0].method, "POST");
    assert_eq!(forms[0].fields[0].name, "wort");
    assert_eq!(forms[0].fields[0].value, "Äpfel");
}

#[test]
fn lowering_that_changes_widths_keeps_values_in_place() {
    // U+212A KELVIN SIGN lowers to a one-byte 'k'; the value after it is
    // still read from where it stands.
    let forms = extract_forms("<form action=\"/\u{212A}\"><input name=\"q\" value=\"Zz\"></form>");
    assert_eq!(forms.len(), 1);
    assert_eq!(forms[0].action, "/k");
    assert_eq!(forms[0].fields[0].value, "Zz");
    // U+0130 lowers to two characters and is kept as written.
    let forms = extract_forms("<form action=\"/\u{130}x\"></form>");
    assert_eq!(forms[0].action, "/\u{130}x");
}

#[test]
fn page_lines_style_links_and_list_videos_and_forms() {
    let span = |text: &str, link_idx: Option<usize>, heading: bool| RichSpan { text: text.to_string(), link_idx, heading };
    let field = |name: &str, ty: &str, value: &str, placeholder: &str| FormField {
        name: name.to_string(),
        field_type: ty.to_string(),
        value: value.to_string(),
        placeholder: placeholder.to_string(),
    };
    let page = PageContent {
        url: "https://p.test/".to_string(),
        title: "T".to_string(),
        html: String::new(),
        links: Vec::new(),
        scripts: Vec::new(),
        load_time_ms: 0,
        status: 200,
        videos: vec![VideoInfo { title: "Clip".to_string(), src: "x".to_string(), video_type: VideoType::Hls }],
        forms: vec![Form {
            action: String::new(),
            method: "GET".to_string(),
            fields: vec![
                field("q", "text", "", "search"),
                field("t", "hidden", "1", ""),
                field("pw", "password", "secret", ""),
            ],
        }],
        rendered_lines: vec![vec![span("Head", None, true)], vec![], vec![span("[1]", Some(0), false), span("go", Some(1), false)]],
    };
    let lines = page_lines(&page, Some(1));
    let texts: Vec<Vec<(String, TextRole)>> = lines;
    assert_eq!(texts[0], vec![("Head".to_string(), TextRole::Heading)]);
    assert!(texts[1].is_empty());
    assert_eq!(texts[2], vec![("[1]".to_string(), TextRole::Link), ("go".to_string(), TextRole::Selected)]);
    assert!(texts[3].is_empty());
    assert_eq!(texts[4][0].1, TextRole::Dim);
    assert_eq!(texts[6], vec![("[HLS] ".to_string(), TextRole::Tag), ("Clip".to_string(), TextRole::Plain)]);
    assert_eq!(texts[7][1], ("[P] Play in external player".to_string(), TextRole::Action));
    assert_eq!(texts[12], vec![("  [Form: form]".to_string(), TextRole::Tag)]);
    assert_eq!(texts[13][2], ("[search]".to_string(), TextRole::Value));
    assert_eq!(texts[14][1], ("pw: ".to_string(), TextRole::Dim));
    assert_eq!(texts[14][2], ("[••••••••]".to_string(), TextRole::Value));
    assert!(texts[15].is_empty());
    assert_eq!(texts.len(), 16);
    let empty = PageContent { videos: Vec::new(), forms: Vec::new(), rendered_lines: Vec::new(), ..page };
    assert_eq!(page_lines(&empty, None), vec![vec![("  (page has no readable content)".to_string(), TextRole::Dim)]]);
}

#[test]
fn navigation_cache_keeps_pages_for_five_seconds() {
    let mut c = NavCache::new();
    c.put("https://a.test/".to_string(), "<p>a</p>".to_string(), 1000);
    c.put("https://b.test/".to_string(), "<p>b</p>".to_string(), 3000);
    assert_eq!(c.get("https://a.test/", 5999), Some("<p>a</p>".to_string()));
    assert_eq!(c.get("https://a.test/", 6000), None);
    assert_eq!(c.len(), 1);
    c.put("https://b.test/".to_string(), "<p>b2</p>".to_string(), 4000);
    assert_eq!(c.len(), 1);
    assert_eq!(c.get("https://b.test/", 4000), Some("<p>b2</p>".to_string()));
    c.evict_expired(9000);
    assert_eq!(c.len(), 0);
    c.put("https://c.test/".to_string(), "c".to_string(), 0);
    c.invalidate("https://c.test/");
    assert_eq!(c.get("https://c.test/", 1), None);
}

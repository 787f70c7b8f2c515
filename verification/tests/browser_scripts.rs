use a_z::browser::{collect_script_requests, resolve_script_url, ScriptRequest};
use a_z::dom::parser::HtmlParser;

fn external(s: &str) -> ScriptRequest {
    ScriptRequest::External(s.to_string())
}

fn inline(s: &str) -> ScriptRequest {
    ScriptRequest::Inline(s.to_string())
}

#[test]
fn collects_external_and_inline_scripts() {
    let html = r#"
            <html><head>
                <script src="/a.js"></script>
                <script>window.inlineA = 1;</script>
                <script type="module" src="/esm.js"></script>
                <script src="//cdn.example.com/lib.js"></script>
                <script>window.inlineB = 2;</script>
            </head></html>
        "#;
    let doc = HtmlParser::new()
        .parse(html, "https://example.com/page")
        .expect("parse");

    let got = collect_script_requests(&doc, "https://example.com/page");
    let want = vec![
        external("https://example.com/a.js"),
        inline("window.inlineA = 1;"),
        external("https://cdn.example.com/lib.js"),
        inline("window.inlineB = 2;"),
    ];
    assert_eq!(got.len(), want.len());
    for (g, w) in got.iter().zip(want.iter()) {
        assert!(g.same(w), "{:?} != {:?}", g, w);
    }
}

#[test]
fn resolves_script_src_against_base() {
    assert_eq!(
        resolve_script_url("../app.js", "https://example.com/a/b/index.html"),
        Some("https://example.com/a/app.js".to_string())
    );
    assert_eq!(
        resolve_script_url("//cdn.site/x.js", "https://example.com"),
        Some("https://cdn.site/x.js".to_string())
    );
    assert_eq!(resolve_script_url("data:text/javascript,1", "https://example.com"), None);
}

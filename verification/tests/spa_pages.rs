use a_z::browser::spa::{
    build_youtube_html, extract_js_var, find_json_end, html_escape, hydrate_from_scripts_checked, inject_youtube_search_ui,
    is_spa_shell, rewrite_youtube_watch_fallback, strip_external_resources,
};
use a_z::dom::document::Document;
use a_z::dom::parser::HtmlParser;
use a_z::dom::serializer::DomSerializer;

fn body_html(d: &Document) -> String {
    let body = d.find_element("body").unwrap();
    DomSerializer::serialize_children(d, body).unwrap()
}

fn page(url: &str) -> Document {
    HtmlParser::new().parse("<html><body><p>old</p></body></html>", url).unwrap()
}

#[test]
fn json_ends_and_script_variables() {
    let chars: Vec<char> = r#"{"a":"}"}rest"#.chars().collect();
    assert_eq!(find_json_end(&chars), Some(9));
    let open: Vec<char> = r#"{"a":[1,2"#.chars().collect();
    assert_eq!(find_json_end(&open), None);
    let html = r#"<script>var ytInitialData = {"x":[1,{"y":"]"}]};</script>"#;
    assert_eq!(extract_js_var(html, "ytInitialData"), Some(r#"{"x":[1,{"y":"]"}]}"#.to_string()));
    assert_eq!(extract_js_var(r#"window['cfg']= [1, 2] ;"#, "cfg"), Some("[1, 2]".to_string()));
    assert_eq!(extract_js_var("var cfg = 3;", "cfg"), None);
    assert_eq!(extract_js_var("nothing", "cfg"), None);
}

#[test]
fn escaping_for_injected_html() {
    assert_eq!(html_escape(r#"<a href="x">'&'</a>"#), "&lt;a href=&quot;x&quot;&gt;&#x27;&amp;&#x27;&lt;/a&gt;");
}

#[test]
fn youtube_watch_pages_get_a_fallback_view() {
    let raw = r#"<script>var ytInitialPlayerResponse = {"videoDetails":{"title":"A & B","author":"Chan","viewCount":"10","lengthSeconds":"61"}};</script>"#;
    let mut d = page("https://www.youtube.com/watch?v=abc");
    assert!(rewrite_youtube_watch_fallback(&mut d, raw, "https://www.youtube.com/watch?v=abc"));
    let b = body_html(&d);
    assert!(!b.contains("<p>old</p>"));
    assert!(b.contains(r#"<img src="https://i.ytimg.com/vi/abc/hqdefault.jpg""#));
    assert!(b.contains(">A &amp; B</div>"));
    assert!(b.contains(">Chan</div>"));
    assert!(b.contains(">10 views 61 sec</div>"));
    assert!(b.contains(r#"href="https://www.youtube.com/watch?v=abc""#));
    assert!(b.contains(r#"href="https://www.youtube.com/results?search_query=A+%26+B""#));

    let mut plain = page("https://youtu.be/xyz");
    assert!(rewrite_youtube_watch_fallback(&mut plain, "", "https://youtu.be/xyz"));
    let p = body_html(&plain);
    assert!(p.contains(">YouTube Video</div>"));
    assert!(p.contains("search_query=YouTube+Video"));

    let mut other = page("https://example.com/watch?v=abc");
    assert!(!rewrite_youtube_watch_fallback(&mut other, raw, "https://example.com/watch?v=abc"));
    assert_eq!(body_html(&other), "<p>old</p>");
    let mut home = page("https://www.youtube.com/");
    assert!(!rewrite_youtube_watch_fallback(&mut home, raw, "https://www.youtube.com/"));
    assert_eq!(body_html(&home), "<p>old</p>");
}

#[test]
fn next_pages_are_rendered_from_their_data() {
    let raw = r#"<script>window.__NEXT_DATA__ = {"page":"/p","props":{"pageProps":{"k":"v"}}};</script>"#;
    let mut d = page("https://n.test/");
    assert_eq!(hydrate_from_scripts_checked(&mut d, raw), Some(true));
    let b = body_html(&d);
    assert!(!b.contains("<p>old</p>"));
    assert!(b.contains("Next.js page: <b>/p</b>"));
    assert!(b.contains(
        r#"<td style="padding:2px 8px 2px 0;color:#666;vertical-align:top;white-space:nowrap">k</td><td style="padding:2px 0">v</td>"#
    ));

    let mut none = page("https://n.test/");
    assert_eq!(hydrate_from_scripts_checked(&mut none, "<p>no data</p>"), Some(false));
    assert_eq!(body_html(&none), "<p>old</p>");
}

#[test]
fn shells_are_pages_with_many_nodes_and_little_text() {
    let mut html = String::from("<html><body>");
    for _ in 0..60 {
        html.push_str("<div></div>");
    }
    html.push_str("</body></html>");
    let shell = HtmlParser::new().parse(&html, "https://s.test/").unwrap();
    assert!(is_spa_shell(&shell));
    assert!(!is_spa_shell(&page("https://s.test/")));
}

#[test]
fn youtube_data_becomes_a_video_grid() {
    let raw = concat_parts(&[
        r#"<script>var ytInitialData = {"contents":{"twoColumnBrowseResultsRenderer":{"tabs":[{"tabRenderer":{"content":"#,
        r#"{"richGridRenderer":{"contents":[{"richItemRenderer":{"content":{"videoRenderer":{"videoId":"v1","#,
        r#""title":{"runs":[{"text":"First <1>"}]},"ownerText":{"runs":[{"text":"Owner"}]},"#,
        r#""viewCountText":{"simpleText":"5 views"}}}}}]}}}}]}}};</script>"#,
    ]);
    let mut d = page("https://www.youtube.com/");
    assert_eq!(hydrate_from_scripts_checked(&mut d, &raw), Some(true));
    let b = body_html(&d);
    assert!(!b.contains("<p>old</p>"));
    assert!(b.contains("▶ YouTube</span>"));
    assert!(b.contains(r#"href="https://www.youtube.com/watch?v=v1""#));
    assert!(b.contains(r#"src="https://i.ytimg.com/vi/v1/hqdefault.jpg""#));
    assert!(b.contains(">First &lt;1&gt;</div>"));
    assert!(b.contains(">Owner</div>"));
    assert!(b.contains(">5 views</div>"));

    let deep = r#"<script>var ytInitialData = {"x":{"y":[{"videoId":"d1","title":{"simpleText":"Deep"}}]}};</script>"#;
    let mut d2 = page("https://www.youtube.com/");
    assert_eq!(hydrate_from_scripts_checked(&mut d2, deep), Some(true));
    let b2 = body_html(&d2);
    assert!(b2.contains("watch?v=d1"));
    assert!(b2.contains(">Deep</div>"));

    let untitled = r#"<script>var ytInitialData = {"videoId":"n1"};</script>"#;
    let mut d3 = page("https://www.youtube.com/");
    assert_eq!(hydrate_from_scripts_checked(&mut d3, untitled), Some(false));
    assert_eq!(body_html(&d3), "<p>old</p>");
}

fn concat_parts(parts: &[&str]) -> String {
    parts.iter().map(|p| p.to_string()).collect::<Vec<_>>().join("")
}

#[test]
fn video_grid_markup() {
    let videos = vec![("id9".to_string(), "T".to_string(), "C".to_string(), "1 view".to_string())];
    let html = build_youtube_html(&videos, "H & co");
    assert!(html.contains("▶ H &amp; co</span>"));
    assert!(html.contains(r#"<a href="https://www.youtube.com/watch?v=id9""#));
    assert!(build_youtube_html(&[], "x").ends_with("</div></div>"));
}

#[test]
fn scripts_and_stylesheets_are_stripped() {
    let html = concat_parts(&[
        r#"<html><head><link rel="stylesheet" href="a.css"><link rel="icon" href="f.ico">"#,
        r#"<script src="x.js"></script></head><body><script>1</script><p>t</p></body></html>"#,
    ]);
    let mut d = HtmlParser::new().parse(&html, "https://s.test/").unwrap();
    strip_external_resources(&mut d);
    let out = DomSerializer::serialize(&d).unwrap();
    assert_eq!(
        out,
        r#"<html><head><base href="https://s.test/"><link rel="icon" href="f.ico"></head><body><p>t</p></body></html>"#
    );
}

#[test]
fn youtube_home_gets_a_search_form() {
    let mut d = page("https://www.youtube.com/");
    inject_youtube_search_ui(&mut d, "https://www.youtube.com/");
    let b = body_html(&d);
    assert!(b.contains(r#"<form action="https://www.youtube.com/results" method="get""#));
    assert!(b.contains(r#"<input name="search_query" type="text" placeholder="Search YouTube...""#));
    let mut other = page("https://example.com/");
    inject_youtube_search_ui(&mut other, "https://example.com/");
    assert_eq!(body_html(&other), "<p>old</p>");
}

use a_z::browser::assets::extract_assets;
use a_z::browser::video::{detect_videos, VideoType};
use a_z::dom::document::Document;
use a_z::dom::parser::HtmlParser;
use a_z::dom::query::DomQuery;
use a_z::dom::serializer::{escape_attr, escape_text, is_void_tag, DomSerializer};
use a_z::dom::walker::{collect_text, resolve_url, walk_document};

const PAGE: &str = "<!DOCTYPE html><html><head><title>T &amp; U</title></head><body><p id=\"x\" class=\"a b\">Hi &lt;there&gt;</p><script>if (a<b) {}</script><img src=\"i.png\" srcset=\"s1.png 1x, s2.png 2x\"><a href=\"/next\">Next  page</a></body></html>";
const URL: &str = "https://s.test/dir/page";

fn doc() -> Document {
    HtmlParser::new().parse(PAGE, URL).unwrap()
}

#[test]
fn parse_then_serialize() {
    let d = doc();
    assert_eq!(
        DomSerializer::serialize(&d).unwrap(),
        "<!DOCTYPE html><html><head><base href=\"https://s.test/dir/page\"><title>T &amp; U</title></head><body><p id=\"x\" class=\"a b\">Hi &lt;there&gt;</p><script>if (a<b) {}</script><img src=\"i.png\" srcset=\"s1.png 1x, s2.png 2x\"><a href=\"/next\">Next  page</a></body></html>"
    );
    let p = d.get_element_by_id("x").unwrap();
    assert_eq!(DomSerializer::serialize_children(&d, p).unwrap(), "Hi &lt;there&gt;");
    assert_eq!(DomSerializer::serialize_node(&d, p).unwrap(), "<p id=\"x\" class=\"a b\">Hi &lt;there&gt;</p>");
    assert_eq!(d.get_text_content(p), "Hi <there>");
}

#[test]
fn escaping_and_void_tags() {
    assert_eq!(escape_text("a<b>&c\""), "a&lt;b&gt;&amp;c\"");
    assert_eq!(escape_attr("a<b>&c\""), "a&lt;b>&amp;c&quot;");
    assert!(is_void_tag("img"));
    assert!(is_void_tag("br"));
    assert!(!is_void_tag("p"));
}

#[test]
fn simple_selectors() {
    let d = doc();
    let p = DomQuery::query_selector(&d, "p.a#x").unwrap().unwrap();
    assert_eq!(d.get_tag_name(p), "p");
    assert_eq!(DomQuery::query_selector(&d, " P.b ").unwrap(), Some(p));
    assert_eq!(DomQuery::query_selector(&d, "p.c").unwrap(), None);
    assert!(DomQuery::query_selector(&d, "body p").is_err());
    let all = DomQuery::query_selector_all(&d, "a").unwrap();
    assert_eq!(all.len(), 1);
    assert_eq!(d.get_tag_name(all[0]), "a");
    let body = d.find_element("body").unwrap();
    let img = DomQuery::query_selector_from(&d, body, "img").unwrap().unwrap();
    assert_eq!(d.get_tag_name(img), "img");
    assert_eq!(DomQuery::query_selector_all_from(&d, p, "p").unwrap(), Vec::<usize>::new());
}

#[test]
fn text_walk_of_the_body() {
    let d = doc();
    let body = d.find_element("body").unwrap();
    let w = walk_document(&d.nodes, body, URL);
    assert_eq!(w.title, "T & U");
    assert_eq!(w.script_count, 1);
    assert_eq!(w.links.len(), 1);
    assert_eq!(w.links[0].href, "https://s.test/next");
    assert_eq!(w.links[0].text, "Next page");
    assert!(w.lines.iter().any(|l| l.len() == 1 && l[0].text == "References" && l[0].heading));
    let last = w.lines.last().unwrap();
    assert_eq!(last.len(), 2);
    assert_eq!(last[0].text, "   [1] ");
    assert_eq!(last[1].text, "https://s.test/next");
    assert_eq!(last[1].link_idx, Some(0));
    let a = d.find_element("a").unwrap();
    assert_eq!(collect_text(&d.nodes, &d.nodes[a].children), "Next  page ");
    assert_eq!(resolve_url(URL, "other"), "https://s.test/dir/other");
}

#[test]
fn assets_of_the_page() {
    let d = doc();
    let a = extract_assets(&d, URL);
    assert_eq!(
        a.images,
        vec!["https://s.test/dir/i.png".to_string(), "https://s.test/dir/s1.png".to_string(), "https://s.test/dir/s2.png".to_string()]
    );
    assert!(a.scripts.is_empty());
    assert!(a.stylesheets.is_empty());
    assert_eq!(a.total(), 3);
}

#[test]
fn videos_found_in_pages() {
    let v = detect_videos(r#"<video src="https://v.test/a.mp4"></video><video src="https://v.test/a.mp4">"#, "https://x.test/");
    assert_eq!(v.len(), 1);
    assert_eq!(v[0].src, "https://v.test/a.mp4");
    assert_eq!(v[0].video_type, VideoType::Direct);
    let y = detect_videos("", "https://www.youtube.com/watch?v=abc");
    assert_eq!(y.len(), 1);
    assert_eq!(y[0].src, "https://www.youtube.com/watch?v=abc");
    assert_eq!(y[0].title, "YouTube Video");
    let h = detect_videos(r#"<source src="https://cdn.test/live.m3u8">"#, "https://x.test/");
    assert_eq!(h.len(), 1);
    assert_eq!(h[0].video_type, VideoType::Hls);
    assert_eq!(h[0].src, "https://cdn.test/live.m3u8");
}

#[test]
fn very_deep_pages_are_cut_not_fatal() {
    let html = "<div>".repeat(5_000);
    let d = HtmlParser::new().parse(&html, URL).unwrap();
    assert!(d.nodes.len() > 500 && d.nodes.len() < 600);
    assert_eq!(d.get_tag_name(d.find_element("body").unwrap()), "body");
}

#[test]
fn base_tag_in_page_text() {
    let p = HtmlParser::new();
    assert_eq!(p.inject_base("<html><HEAD><title>t</title>", "u"), "<html><HEAD><base href=\"u\"><title>t</title>");
    assert_eq!(p.inject_base("<HTML lang=en><body>", "u"), "<HTML lang=en><head><base href=\"u\"></head><body>");
    assert_eq!(p.inject_base("<p>x</p>", "u"), "<head><base href=\"u\"></head><p>x</p>");
    // Lower-casing 'İ' takes one byte more, so the place found is one byte on.
    assert_eq!(p.inject_base_checked("İ<head>x", "u"), Some("İ<head>x<base href=\"u\">".to_string()));
    assert_eq!(p.inject_base_checked("İ<head>é", "u"), None);
}

#[test]
fn repeated_targets_share_one_link() {
    let d = HtmlParser::new()
        .parse(r#"<html><body><a href="/x">A</a> <a href="/y">B</a> <a href="/x">C</a></body></html>"#, URL)
        .unwrap();
    let body = d.find_element("body").unwrap();
    let w = walk_document(&d.nodes, body, URL);
    assert_eq!(w.links.len(), 2);
    assert_eq!(w.links[0].href, "https://s.test/x");
    assert_eq!(w.links[0].text, "A");
    assert_eq!(w.links[1].href, "https://s.test/y");
    for line in &w.lines {
        for span in line {
            if let Some(i) = span.link_idx {
                assert!(i < w.links.len());
            }
        }
    }
    let first = &w.lines[0];
    let labels: Vec<(String, Option<usize>)> =
        first.iter().filter(|s| s.text.starts_with('[')).map(|s| (s.text.clone(), s.link_idx)).collect();
    assert_eq!(
        labels,
        vec![("[1]".to_string(), Some(0)), ("[2]".to_string(), Some(1)), ("[1]".to_string(), Some(0))]
    );
}

#[test]
fn inline_scripts_of_the_whole_document_are_counted() {
    let mut d = Document::new();
    let h = d.create_element_node("head");
    d.append_child(0, h);
    let s = d.create_element_node("script");
    d.append_child(h, s);
    let x = d.create_text_node("x=1");
    d.append_child(s, x);
    assert_eq!(walk_document(&d.nodes, 0, "https://b.com/").script_count, 1);
    let p = HtmlParser::new()
        .parse(r#"<html><head><script>a()</script><script src="e.js"></script></head><body><script> </script></body></html>"#, URL)
        .unwrap();
    let body = p.find_element("body").unwrap();
    assert_eq!(walk_document(&p.nodes, body, URL).script_count, 1);
}

#[test]
fn tags_below_a_node_come_last_child_first() {
    let d = HtmlParser::new()
        .parse(r#"<html><body><div id="a"><p>1</p><div><p>2</p></div><p>3</p></div><p>4</p></body></html>"#, URL)
        .unwrap();
    let a = d.get_element_by_id("a").unwrap();
    let found = d.elements_by_tag_below(a, "p");
    let texts: Vec<String> = found.iter().map(|&id| d.get_text_content(id)).collect();
    assert_eq!(texts, vec!["3", "2", "1"]);
    assert!(d.elements_by_tag_below(d.nodes.len() + 5, "p").is_empty());
    assert!(d.elements_by_tag_below(a, "P").is_empty());
}

#[test]
fn location_script_quotes_the_address() {
    let s = a_z::js::location::location_script("https://x.test/a'b");
    assert!(s.starts_with("(function(){try{var __u=new URL('https://x.test/a\\'b');globalThis.location.href=__u.href;"));
    assert!(s.ends_with("globalThis.origin=__u.origin;}catch(e){}})()"));
}

#[test]
fn a_second_base_injection_changes_nothing() {
    let mut d = HtmlParser::new().parse("<html><head><title>t</title></head><body></body></html>", "https://a.test/").unwrap();
    let once = DomSerializer::serialize(&d).unwrap();
    assert!(once.contains("<head><base href=\"https://a.test/\"><title>t</title>"));
    d.inject_base("https://other.test/");
    d.inject_base("https://third.test/");
    assert_eq!(DomSerializer::serialize(&d).unwrap(), once);
}

#[test]
fn titles_read_back_as_set() {
    let mut d = HtmlParser::new().parse("<html><head></head><body><p>x</p></body></html>", "https://a.test/").unwrap();
    assert_eq!(d.get_title(), "");
    d.set_title("First");
    assert_eq!(d.get_title(), "First");
    d.set_title("Second");
    assert_eq!(d.get_title(), "Second");
    let mut bare = Document::new();
    bare.set_title("none");
    assert_eq!(bare.get_title(), "");
}

#[test]
fn a_deep_copy_serializes_as_its_source() {
    let src = doc();
    let p = src.get_element_by_id("x").unwrap();
    let mut d = Document::new();
    let r = d.deep_clone_from(&src, p);
    assert_eq!(DomSerializer::serialize_node(&d, r).unwrap(), DomSerializer::serialize_node(&src, p).unwrap());
    assert_eq!(DomSerializer::serialize_node(&d, r).unwrap(), "<p id=\"x\" class=\"a b\">Hi &lt;there&gt;</p>");
}

#[test]
fn inner_html_takes_the_sources_markup() {
    let src = HtmlParser::new().parse("<html><body><p>a</p><b>b &amp; c</b></body></html>", URL).unwrap();
    let body = src.find_element("body").unwrap();
    let kids = src.nodes[body].children.clone();
    let mut d = doc();
    let target = d.get_element_by_id("x").unwrap();
    d.replace_inner_html(target, &src, &kids);
    assert_eq!(DomSerializer::serialize_children(&d, target).unwrap(), "<p>a</p><b>b &amp; c</b>");
}

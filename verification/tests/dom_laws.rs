use a_z::browser::session::Session;
use a_z::browser::spa::html_escape;
use a_z::dom::document::Document;
use a_z::dom::node::NodeData;
use a_z::dom::parser::HtmlParser;

fn page() -> Document {
    HtmlParser::new()
        .parse("<html><body><p id=\"x\" title=\"old\">one</p></body></html>", "https://e/")
        .unwrap()
}

#[test]
fn attribute_reads_back_what_was_set() {
    let mut doc = page();
    let p = doc.find_element("p").unwrap();
    doc.set_attribute(p, "title", "new");
    assert_eq!(doc.get_attribute(p, "title"), Some("new"));
    assert_eq!(doc.get_attribute(p, "id"), Some("x"));
    doc.set_attribute(p, "data-k", "v");
    assert_eq!(doc.get_attribute(p, "data-k"), Some("v"));
    assert_eq!(doc.get_attribute(p, "title"), Some("new"));
}

#[test]
fn removed_attribute_reads_as_absent() {
    let mut doc = page();
    let p = doc.find_element("p").unwrap();
    doc.remove_attribute(p, "title");
    assert_eq!(doc.get_attribute(p, "title"), None);
    assert_eq!(doc.get_attribute(p, "id"), Some("x"));
    doc.remove_attribute(p, "missing");
    assert_eq!(doc.get_attribute(p, "id"), Some("x"));
}

#[test]
fn attributes_of_non_elements_are_untouched() {
    let mut doc = page();
    doc.set_attribute(0, "a", "b");
    assert_eq!(doc.get_attribute(0, "a"), None);
    doc.set_attribute(99999, "a", "b");
    assert_eq!(doc.get_attribute(99999, "a"), None);
}

#[test]
fn released_slots_are_reused() {
    let mut doc = page();
    let p = doc.find_element("p").unwrap();
    doc.set_text_content(p, "two");
    let n = doc.nodes.len();
    doc.set_text_content(p, "three");
    assert_eq!(doc.nodes.len(), n);
    assert_eq!(doc.get_text_content(p), "three");
    let fresh = doc.create_node(NodeData::Text { content: "z".to_string() });
    assert_eq!(fresh, n);
}

#[test]
fn append_links_parent_and_child() {
    let mut doc = Document::new();
    let a = doc.create_element_node("DIV");
    doc.append_child(0, a);
    assert_eq!(doc.nodes[a].parent, Some(0));
    assert_eq!(*doc.nodes[0].children.last().unwrap(), a);
    assert_eq!(doc.get_tag_name(a), "div");
}

#[test]
fn history_navigation_and_round_trips() {
    let mut s = Session::new("s".to_string());
    assert_eq!(s.current_url(), None);
    s.record_navigation("https://a/");
    s.record_navigation("https://b/");
    s.record_navigation("https://c/");
    assert_eq!(s.current_url(), Some("https://c/"));
    assert!(!s.can_go_forward());
    assert_eq!(s.back(), Some("https://b/".to_string()));
    assert_eq!(s.forward(), Some("https://c/".to_string()));
    assert_eq!(s.forward(), None);
    assert_eq!(s.back(), Some("https://b/".to_string()));
    assert_eq!(s.back(), Some("https://a/".to_string()));
    assert_eq!(s.back(), None);
    assert_eq!(s.current_url(), Some("https://a/"));
    s.record_navigation("https://d/");
    assert_eq!(s.current_url(), Some("https://d/"));
    assert!(!s.can_go_forward());
    assert_eq!(s.back(), Some("https://a/".to_string()));
}

#[test]
fn escaping_leaves_no_markup() {
    assert_eq!(html_escape("<a href='x'>\"&\"</a>"), "&lt;a href=&#x27;x&#x27;&gt;&quot;&amp;&quot;&lt;/a&gt;");
    let out = html_escape("<script>alert(\"x\")</script>");
    assert!(!out.contains('<') && !out.contains('>') && !out.contains('"') && !out.contains('\''));
    assert_eq!(html_escape("plain é"), "plain é");
}

#[test]
fn append_then_remove_restores() {
    let mut doc = page();
    let body = doc.find_element("body").unwrap();
    let n = doc.create_element_node("span");
    let before: Vec<usize> = doc.nodes[body].children.clone();
    doc.append_child(body, n);
    doc.remove_from_parent(n);
    assert_eq!(doc.nodes[body].children, before);
    assert_eq!(doc.nodes[n].parent, None);
}

#[test]
fn set_then_remove_attribute_restores() {
    let mut doc = page();
    let p = doc.find_element("p").unwrap();
    doc.set_attribute(p, "data-x", "1");
    doc.remove_attribute(p, "data-x");
    assert_eq!(doc.get_attribute(p, "data-x"), None);
    assert_eq!(doc.get_attribute(p, "id"), Some("x"));
    assert_eq!(doc.get_attribute(p, "title"), Some("old"));
}

#[test]
fn text_reads_back_and_siblings_are_inverse() {
    let mut doc = page();
    let p = doc.find_element("p").unwrap();
    doc.set_text_content(p, "two");
    assert_eq!(doc.get_text_content(p), "two");
    assert_eq!(doc.nodes[p].children.len(), 1);
    let body = doc.find_element("body").unwrap();
    let q = doc.create_element_node("q");
    doc.append_child(body, q);
    assert_eq!(doc.get_next_sibling(p), Some(q));
    assert_eq!(doc.get_prev_sibling(q), Some(p));
    assert_eq!(doc.get_next_sibling(q), None);
    assert_eq!(doc.get_prev_sibling(p), None);
}

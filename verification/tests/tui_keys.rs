use a_z::dom::walker::Link;
use a_z::tui::app::{App, AppMode, PageContent, ViewMode};
use a_z::tui::events::{handle_key, resolve_input, KeyCode, KeyEvent};
use a_z::tui::view::{field_line, form_label, page_number, search_blanks, span_style, title_text, video_tag, SpanStyle};
use a_z::browser::video::VideoType;
use a_z::dom::forms::FormField;

fn key(code: KeyCode) -> KeyEvent {
    KeyEvent { code, ctrl: false }
}

fn typed(app: &mut App, text: &str) {
    for c in text.chars() {
        assert_eq!(handle_key(app, key(KeyCode::Char(c))), None);
    }
}

fn page(url: &str, hrefs: &[&str]) -> PageContent {
    PageContent {
        url: url.to_string(),
        title: "T".to_string(),
        html: String::new(),
        links: hrefs.iter().map(|h| Link { text: h.to_string(), href: h.to_string() }).collect(),
        scripts: Vec::new(),
        load_time_ms: 12,
        status: 200,
        videos: Vec::new(),
        forms: Vec::new(),
        rendered_lines: Vec::new(),
    }
}

#[test]
fn typed_text_becomes_an_address() {
    assert_eq!(resolve_input("  https://a.test/x ".to_string()), "https://a.test/x");
    assert_eq!(resolve_input("example.com".to_string()), "https://example.com");
    assert_eq!(resolve_input("a b&c".to_string()), "https://search.brave.com/search?q=a+b%26c");
    assert_eq!(resolve_input("é".to_string()), "https://search.brave.com/search?q=%C3%A9");
}

#[test]
fn new_tab_search_box() {
    let mut app = App::new();
    assert_eq!(app.mode, AppMode::NewTab);
    typed(&mut app, "rust");
    assert_eq!(handle_key(&mut app, key(KeyCode::Backspace)), None);
    assert_eq!(app.search_input, "rus");
    assert_eq!(handle_key(&mut app, key(KeyCode::Enter)), Some("https://search.brave.com/search?q=rus".to_string()));
    assert_eq!(app.search_input, "");
    assert_eq!(handle_key(&mut app, key(KeyCode::Enter)), None);
    assert_eq!(handle_key(&mut app, key(KeyCode::Char('q'))), None);
    assert!(app.should_quit);
}

#[test]
fn control_c_quits_and_loading_ignores_keys() {
    let mut app = App::new();
    app.mode = AppMode::Loading;
    assert_eq!(handle_key(&mut app, key(KeyCode::Char('x'))), None);
    assert_eq!(app.search_input, "");
    assert!(!app.should_quit);
    assert_eq!(handle_key(&mut app, KeyEvent { code: KeyCode::Char('c'), ctrl: true }), None);
    assert!(app.should_quit);
    assert_eq!(app.mode, AppMode::Loading);
}

#[test]
fn page_links_history_and_url_bar() {
    let mut app = App::new();
    app.load_page(page("https://one.test/", &["https://one.test/a", "b.html"]));
    assert_eq!(app.mode, AppMode::Page);
    assert_eq!(app.status_text, "Done — 2 links, 12ms");
    assert_eq!(app.url_input, "https://one.test/");
    assert_eq!(handle_key(&mut app, key(KeyCode::Tab)), None);
    assert_eq!(app.selected_link, Some(0));
    assert_eq!(app.status_text, "Link: https://one.test/a");
    assert_eq!(handle_key(&mut app, key(KeyCode::Down)), None);
    assert_eq!(handle_key(&mut app, key(KeyCode::Down)), None);
    assert_eq!(app.selected_link, Some(0));
    assert_eq!(handle_key(&mut app, key(KeyCode::Up)), None);
    assert_eq!(app.selected_link, Some(1));
    assert_eq!(handle_key(&mut app, key(KeyCode::Enter)), Some("https://b.html".to_string()));

    assert_eq!(handle_key(&mut app, key(KeyCode::Char('b'))), None);
    assert_eq!(app.status_text, "No more history.");
    app.load_page(page("https://two.test/", &[]));
    assert_eq!(app.history, vec!["https://one.test/".to_string(), "https://two.test/".to_string()]);
    assert_eq!(handle_key(&mut app, key(KeyCode::Left)), Some("https://one.test/".to_string()));
    assert_eq!(app.history_idx, 0);

    assert_eq!(handle_key(&mut app, key(KeyCode::Char('j'))), None);
    assert_eq!(app.scroll_offset, 5);
    assert_eq!(handle_key(&mut app, key(KeyCode::PageUp)), None);
    assert_eq!(app.scroll_offset, 0);
    assert_eq!(handle_key(&mut app, key(KeyCode::Char('v'))), None);
    assert_eq!(app.view_mode, ViewMode::PageView);

    assert_eq!(handle_key(&mut app, key(KeyCode::Char('/'))), None);
    assert_eq!(app.mode, AppMode::Input);
    typed(&mut app, "docs.rs");
    assert_eq!(handle_key(&mut app, key(KeyCode::Enter)), Some("https://docs.rs".to_string()));
    assert_eq!(app.mode, AppMode::Loading);
    app.set_error("boom".to_string());
    assert_eq!(app.mode, AppMode::Page);
    assert_eq!(app.status_text, "Error: boom");

    assert_eq!(handle_key(&mut app, key(KeyCode::Char('g'))), None);
    assert_eq!(handle_key(&mut app, key(KeyCode::Esc)), None);
    assert_eq!(app.mode, AppMode::Page);
    assert_eq!(handle_key(&mut app, key(KeyCode::Char('q'))), None);
    assert_eq!(app.mode, AppMode::NewTab);
    assert!(app.current_page.is_none());
}

fn field(field_type: &str, value: &str, placeholder: &str) -> FormField {
    FormField {
        name: "n".to_string(),
        field_type: field_type.to_string(),
        value: value.to_string(),
        placeholder: placeholder.to_string(),
    }
}

#[test]
fn frame_pieces() {
    assert_eq!(span_style(Some(2), false, Some(2)), SpanStyle::Selected);
    assert_eq!(span_style(Some(2), true, Some(1)), SpanStyle::Link);
    assert_eq!(span_style(None, true, Some(1)), SpanStyle::Heading);
    assert_eq!(span_style(None, false, None), SpanStyle::Plain);
    assert_eq!(video_tag(VideoType::YouTube), "[YT]  ");
    assert_eq!(video_tag(VideoType::Dash), "[DASH]");
    assert_eq!(video_tag(VideoType::Direct), "[vid] ");
    assert_eq!(form_label(""), "  [Form: form]");
    assert_eq!(form_label("/s"), "  [Form: /s]");
    assert_eq!(field_line(&field("hidden", "x", "")), None);
    assert_eq!(field_line(&field("password", "secret", "")), Some(("n: ".to_string(), "[••••••••]".to_string())));
    assert_eq!(field_line(&field("text", "v", "p")), Some(("n: ".to_string(), "[v]".to_string())));
    assert_eq!(field_line(&field("text", "", "p")), Some(("n: ".to_string(), "[p]".to_string())));
    assert_eq!(field_line(&field("text", "", "")), Some(("n: ".to_string(), "[________________]".to_string())));
    assert_eq!(title_text(Some("Straße")), "STRASSE");
    assert_eq!(title_text(None), "A-Z BROWSER");
    assert_eq!(page_number(0, 0), 1);
    assert_eq!(page_number(25, 10), 3);
    assert_eq!(page_number(u16::MAX, 1), 65536);
    assert_eq!(search_blanks(40), "____");
    assert_eq!(search_blanks(50), "");
}

//! Single-page applications: pages whose body is an empty shell filled in by
//! scripts. The data those scripts would render is read from JSON embedded
//! in the page (YouTube, Next.js, Remix, Nuxt) and shown as plain HTML.
use vstd::prelude::*;
use crate::dom::document::{
    clear_children, clone_all, doc_text, doc_wf, find_tag, kids_of, release_all, unlink_spec, DocView, Document,
};
use crate::dom::node::{attr_lookup, attr_of, DataView, NodeData, NodeId, NodeView};
use crate::dom::parser::{parsed_doc, HtmlParser};
use crate::text::{
    chars_of, contains_seq, ends_with, find_from, find_from_exec, join, join_chars, lemma_find_from, split_words,
    str_contains, str_ends_with, str_eq, strs_view, trim_start, utf8_len, utf8_len_capped, words, is_ws_exec,
    append_range,
};
use crate::urls::{parse_url, url_parse};
use crate::browser::json::{
    as_str, get_index, get_key, json_members, json_view, json_views, lemma_json_members, lemma_json_views, member,
    pointer_spec, toks_view, parsed_ok, json_pretty, JsonValue, JsonView,
};

verus! {

// ── Putting HTML into the body ──────────────────────────────────────────────

pub open spec fn wrap_body(html: Seq<char>) -> Seq<char> {
    "<html><body>"@ + html + "</body></html>"@
}

/// The document after the children of `body` are replaced by the nodes that
/// `html` parses to (as the body of a page of its own).
pub open spec fn inject_spec(d: DocView, body: NodeId, html: Seq<char>) -> DocView {
    let f = parsed_doc(wrap_body(html), Seq::empty());
    match find_tag(f, "body"@) {
        Some(fb) => clone_all(
            release_all(clear_children(d, body), kids_of(d, body)),
            body,
            f.nodes,
            f.nodes[fb as int].children,
        ),
        None => d,
    }
}

/// Replaces the children of `body_id` with the parse of `html`.
fn inject_html_into_body(doc: &mut Document, body_id: NodeId, html: &str)
    requires
        doc_wf(old(doc)@),
        body_id < old(doc)@.nodes.len(),
    ensures
        final(doc)@ == inject_spec(old(doc)@, body_id, html@),
        doc_wf(final(doc)@),
{
    let mut wrapped = String::new();
    wrapped.append("<html><body>");
    wrapped.append(html);
    wrapped.append("</body></html>");
    proof {
        reveal_strlit("");
    }
    assert(""@ =~= Seq::<char>::empty());
    assert(wrapped@ =~= wrap_body(html@));
    let parser = HtmlParser::new();
    match parser.parse(wrapped.as_str(), "") {
        Ok(frag) => {
            match frag.find_element("body") {
                Some(fb) => {
                    assert(frag@.nodes[fb as int] == frag.nodes@[fb as int]@);
                    doc.replace_inner_html(body_id, &frag, frag.nodes[fb].children.as_slice());
                },
                None => {},
            }
        },
        Err(_) => {},
    }
}

// ── YouTube search page ─────────────────────────────────────────────────────

/// The search form shown on a YouTube home page.
pub const YOUTUBE_SEARCH_HTML: &'static str = r#"<div id="bose-spa-content" style="font-family:Arial,sans-serif;background:#0f0f0f;color:#fff;min-height:100vh;display:flex;flex-direction:column;align-items:center;padding-top:80px">
  <div style="display:flex;align-items:center;gap:12px;margin-bottom:40px">
    <span style="color:#ff0000;font-size:36px;font-weight:bold">▶ YouTube</span>
    <span style="color:#aaa;font-size:13px">— Bose engine</span>
  </div>
  <form action="https://www.youtube.com/results" method="get" style="display:flex;gap:8px;width:100%;max-width:600px">
    <input name="search_query" type="text" placeholder="Search YouTube..."
      style="flex:1;padding:12px 16px;font-size:16px;border:1px solid #555;border-radius:24px;background:#121212;color:#fff;outline:none">
    <button type="submit"
      style="padding:12px 20px;background:#ff0000;color:#fff;border:none;border-radius:24px;font-size:15px;font-weight:600;cursor:pointer">
      Search
    </button>
  </form>
  <p style="color:#555;font-size:12px;margin-top:20px">
    YouTube homepage requires sign-in for recommendations. Use search to find videos.
  </p>
</div>"#;

/// The URL parses and its host ends in `youtube.com`.
pub open spec fn is_youtube_url(url: Seq<char>) -> bool {
    match url_parse(url) {
        Some(u) => match u.host {
            Some(h) => ends_with(h, "youtube.com"@),
            None => false,
        },
        None => false,
    }
}

/// On a YouTube page with a body, replaces the body with a search form; any
/// other page is left as it is.
pub fn inject_youtube_search_ui(doc: &mut Document, url: &str)
    requires
        doc_wf(old(doc)@),
    ensures
        doc_wf(final(doc)@),
        final(doc)@ == (if is_youtube_url(url@) {
            match find_tag(old(doc)@, "body"@) {
                Some(b) => inject_spec(old(doc)@, b, YOUTUBE_SEARCH_HTML@),
                None => old(doc)@,
            }
        } else {
            old(doc)@
        }),
{
    let is_youtube = match parse_url(url) {
        Ok(u) => match &u.host {
            Some(h) => str_ends_with(h.as_str(), "youtube.com"),
            None => false,
        },
        Err(_) => false,
    };
    if !is_youtube {
        return;
    }
    match doc.find_element("body") {
        Some(b) => inject_html_into_body(doc, b, YOUTUBE_SEARCH_HTML),
        None => {},
    }
}

// ── Stripping scripts and stylesheets ───────────────────────────────────────

pub open spec fn or_empty(o: Option<Seq<char>>) -> Seq<char> {
    match o {
        Some(s) => s,
        None => Seq::empty(),
    }
}

/// Scripts of any kind, and `<link>`s to stylesheets or preloads.
pub open spec fn is_stripped(n: NodeView) -> bool {
    match n.data {
        DataView::Element { tag_name, attrs, .. } => tag_name == "script"@ || (tag_name == "link"@ && {
            let rel = or_empty(attr_lookup(attrs, "rel"@));
            contains_seq(rel, "stylesheet"@) || rel == "preload"@ || rel == "prefetch"@
        }),
        _ => false,
    }
}

/// The arena slots below `k` holding a node to strip, in order.
pub open spec fn stripped_upto(nodes: Seq<NodeView>, k: nat) -> Seq<NodeId>
    decreases k,
{
    if k == 0 {
        Seq::empty()
    } else {
        let prev = stripped_upto(nodes, (k - 1) as nat);
        if is_stripped(nodes[k - 1]) {
            prev.push((k - 1) as NodeId)
        } else {
            prev
        }
    }
}

/// The document after detaching each of `ids` in turn.
pub open spec fn unlink_all(d: DocView, ids: Seq<NodeId>) -> DocView
    decreases ids.len(),
{
    if ids.len() == 0 {
        d
    } else {
        unlink_all(unlink_spec(d, ids[0]), ids.drop_first())
    }
}

fn strips(node: &crate::dom::node::Node) -> (r: bool)
    ensures
        r == is_stripped(node@),
{
    proof {
        reveal_strlit("");
    }
    match &node.data {
        NodeData::Element { tag_name, .. } => {
            if str_eq(tag_name.as_str(), "script") {
                return true;
            }
            if str_eq(tag_name.as_str(), "link") {
                let rel = match node.attr("rel") {
                    Some(r) => r,
                    None => "",
                };
                assert(or_empty(attr_of(node@.data, "rel"@)) == rel@);
                return str_contains(rel, "stylesheet") || str_eq(rel, "preload") || str_eq(rel, "prefetch");
            }
            false
        },
        _ => false,
    }
}

/// Detaches every script and every stylesheet or preload `<link>` from its
/// parent, so that nothing the page loads can overwrite what was rendered.
pub fn strip_external_resources(doc: &mut Document)
    requires
        doc_wf(old(doc)@),
    ensures
        doc_wf(final(doc)@),
        final(doc)@ == unlink_all(old(doc)@, stripped_upto(old(doc)@.nodes, old(doc)@.nodes.len())),
{
    let ghost d0 = doc@;
    let mut ids: Vec<NodeId> = Vec::new();
    let mut k: usize = 0;
    while k < doc.nodes.len()
        invariant
            k <= doc@.nodes.len(),
            doc@ == d0,
            ids@ == stripped_upto(d0.nodes, k as nat),
            forall|j: int| 0 <= j < ids@.len() ==> #[trigger] ids@[j] < k,
        decreases doc@.nodes.len() - k,
    {
        assert(d0.nodes[k as int] == doc.nodes@[k as int]@);
        if strips(&doc.nodes[k]) {
            ids.push(k);
        }
        k = k + 1;
    }
    let mut i: usize = 0;
    assert(ids@.skip(0) =~= ids@);
    while i < ids.len()
        invariant
            i <= ids@.len(),
            doc_wf(doc@),
            doc@.nodes.len() == d0.nodes.len(),
            forall|j: int| 0 <= j < ids@.len() ==> #[trigger] ids@[j] < d0.nodes.len(),
            unlink_all(d0, ids@) == unlink_all(doc@, ids@.skip(i as int)),
        decreases ids@.len() - i,
    {
        assert(ids@.skip(i as int)[0] == ids@[i as int]);
        assert(ids@.skip(i as int).drop_first() =~= ids@.skip(i + 1));
        doc.remove_from_parent(ids[i]);
        i = i + 1;
    }
    assert(ids@.skip(i as int) =~= Seq::<NodeId>::empty());
}

// ── Shell detection ─────────────────────────────────────────────────────────

/// A body whose visible text, its words joined by single spaces, is under
/// 400 bytes, in a document of more than 50 nodes: the first `<body>` in
/// document order (what `find_element("body")` gives), its text content (what
/// `get_text_content` gives), split at white space (`split_whitespace`),
/// joined with single spaces, measured in UTF-8 bytes (`len`).
pub open spec fn is_shell(d: DocView) -> bool {
    match find_tag(d, "body"@) {
        Some(b) => utf8_len(join(words(doc_text(d, b)), " "@)) < 400 && d.nodes.len() > 50,
        None => false,
    }
}

/// Whether the page is an empty application shell waiting for its scripts.
pub fn is_spa_shell(doc: &Document) -> (r: bool)
    ensures
        r == is_shell(doc@),
{
    let body = match doc.find_element("body") {
        Some(b) => b,
        None => return false,
    };
    let text = doc.get_text_content(body);
    let cs = chars_of(text.as_str());
    let ws = split_words(cs.as_slice());
    let sp = chars_of(" ");
    let visible = join_chars(&ws, sp.as_slice());
    utf8_len_capped(visible.as_slice()) < 400 && doc.nodes.len() > 50
}

// ── Finding embedded JSON ───────────────────────────────────────────────────

/// Where the JSON value that starts `s` ends: brackets and braces outside
/// strings are counted, backslash escapes inside strings are skipped, and the
/// index just past the bracket that brings the count back to zero is given.
pub open spec fn json_scan(s: Seq<char>, i: int, depth: int, in_str: bool, esc: bool) -> Option<int>
    decreases s.len() - i,
{
    if i < 0 || i >= s.len() {
        None
    } else {
        let b = s[i];
        if esc {
            json_scan(s, i + 1, depth, in_str, false)
        } else if b == '\\' && in_str {
            json_scan(s, i + 1, depth, in_str, true)
        } else if b == '"' {
            json_scan(s, i + 1, depth, !in_str, false)
        } else if (b == '{' || b == '[') && !in_str {
            json_scan(s, i + 1, depth + 1, in_str, false)
        } else if (b == '}' || b == ']') && !in_str {
            if depth - 1 == 0 {
                Some(i + 1)
            } else {
                json_scan(s, i + 1, depth - 1, in_str, false)
            }
        } else {
            json_scan(s, i + 1, depth, in_str, false)
        }
    }
}

pub open spec fn json_end(s: Seq<char>) -> Option<int> {
    json_scan(s, 0, 0, false, false)
}

/// End of the JSON object or array at the start of `s`; see `json_end`.
pub fn find_json_end(s: &[char]) -> (r: Option<usize>)
    ensures
        match r {
            Some(e) => json_end(s@) == Some(e as int),
            None => json_end(s@) is None,
        },
{
    let mut depth: i128 = 0;
    let mut in_str = false;
    let mut esc = false;
    let mut i: usize = 0;
    while i < s.len()
        invariant
            i <= s@.len(),
            -(i as int) <= depth <= i,
            json_end(s@) == json_scan(s@, i as int, depth as int, in_str, esc),
        decreases s@.len() - i,
    {
        let b = s[i];
        if esc {
            esc = false;
        } else if b == '\\' && in_str {
            esc = true;
        } else if b == '"' {
            in_str = !in_str;
        } else if (b == '{' || b == '[') && !in_str {
            depth = depth + 1;
        } else if (b == '}' || b == ']') && !in_str {
            depth = depth - 1;
            if depth == 0 {
                return Some(i + 1);
            }
        }
        i = i + 1;
    }
    None
}

/// The thirteen ways a page assigns a value to `name`, tried in this order.
pub open spec fn js_var_needles(name: Seq<char>) -> Seq<Seq<char>> {
    seq![
        "var "@ + name + " = "@,
        "var "@ + name + "="@,
        "window."@ + name + " = "@,
        "window."@ + name + "="@,
        "window[\""@ + name + "\"] = "@,
        "window[\""@ + name + "\"]= "@,
        "window[\""@ + name + "\"]="@,
        "window['"@ + name + "'] = "@,
        "window['"@ + name + "']= "@,
        "window['"@ + name + "']="@,
        name + " = "@,
        name + "="@,
        "\""@ + name + "\":"@,
    ]
}

/// The JSON found after the first occurrence of `needle`: white space is
/// skipped and an object or array must follow.
pub open spec fn json_after(html: Seq<char>, needle: Seq<char>) -> Option<Seq<char>> {
    match find_from(html, needle, 0) {
        Some(pos) => {
            let t = trim_start(html.skip(pos + needle.len()));
            if t.len() > 0 && (t[0] == '{' || t[0] == '[') {
                match json_end(t) {
                    Some(e) => Some(t.take(e)),
                    None => None,
                }
            } else {
                None
            }
        },
        None => None,
    }
}

/// The first needle, from `k` on, after which JSON is found.
pub open spec fn js_var_from(html: Seq<char>, needles: Seq<Seq<char>>, k: int) -> Option<Seq<char>>
    decreases needles.len() - k,
{
    if k < 0 || k >= needles.len() {
        None
    } else {
        match json_after(html, needles[k]) {
            Some(j) => Some(j),
            None => js_var_from(html, needles, k + 1),
        }
    }
}

/// The JSON text assigned to the variable `name` in the page.
pub open spec fn js_var(html: Seq<char>, name: Seq<char>) -> Option<Seq<char>> {
    js_var_from(html, js_var_needles(name), 0)
}

fn cat3(a: &str, b: &str, c: &str) -> (r: Vec<char>)
    ensures
        r@ == a@ + b@ + c@,
{
    let mut s = String::new();
    s.append(a);
    s.append(b);
    s.append(c);
    chars_of(s.as_str())
}

fn js_var_needles_exec(name: &str) -> (r: Vec<Vec<char>>)
    ensures
        strs_view(r@) == js_var_needles(name@),
{
    proof {
        reveal_strlit("");
    }
    let mut v: Vec<Vec<char>> = Vec::new();
    v.push(cat3("var ", name, " = "));
    v.push(cat3("var ", name, "="));
    v.push(cat3("window.", name, " = "));
    v.push(cat3("window.", name, "="));
    v.push(cat3("window[\"", name, "\"] = "));
    v.push(cat3("window[\"", name, "\"]= "));
    v.push(cat3("window[\"", name, "\"]="));
    v.push(cat3("window['", name, "'] = "));
    v.push(cat3("window['", name, "']= "));
    v.push(cat3("window['", name, "']="));
    v.push(cat3("", name, " = "));
    v.push(cat3("", name, "="));
    v.push(cat3("\"", name, "\":"));
    assert(""@ + name@ + " = "@ =~= name@ + " = "@);
    assert(""@ + name@ + "="@ =~= name@ + "="@);
    assert(strs_view(v@) =~= js_var_needles(name@));
    v
}

/// The JSON text assigned to `name` in the page; see `js_var`.
pub fn extract_js_var(html: &str, name: &str) -> (r: Option<String>)
    ensures
        match r {
            Some(j) => js_var(html@, name@) == Some(j@),
            None => js_var(html@, name@) is None,
        },
{
    let h = chars_of(html);
    let needles = js_var_needles_exec(name);
    let ghost nv = strs_view(needles@);
    let mut k: usize = 0;
    while k < needles.len()
        invariant
            k <= needles@.len(),
            h@ == html@,
            nv == strs_view(needles@),
            nv == js_var_needles(name@),
            js_var(html@, name@) == js_var_from(html@, nv, k as int),
        decreases needles@.len() - k,
    {
        assert(nv[k as int] == needles@[k as int]@);
        match json_after_exec(h.as_slice(), needles[k].as_slice()) {
            Some(j) => {
                return Some(crate::text::string_from(j.as_slice()));
            },
            None => {},
        }
        k = k + 1;
    }
    None
}

proof fn lemma_json_scan_bound(s: Seq<char>, i: int, depth: int, in_str: bool, esc: bool)
    ensures
        json_scan(s, i, depth, in_str, esc) matches Some(e) ==> 0 < e <= s.len(),
    decreases s.len() - i,
{
    if 0 <= i < s.len() {
        lemma_json_scan_bound(s, i + 1, depth, in_str, false);
        lemma_json_scan_bound(s, i + 1, depth, in_str, true);
        lemma_json_scan_bound(s, i + 1, depth, !in_str, false);
        lemma_json_scan_bound(s, i + 1, depth + 1, in_str, false);
        lemma_json_scan_bound(s, i + 1, depth - 1, in_str, false);
    }
}

fn json_after_exec(html: &[char], nd: &[char]) -> (r: Option<Vec<char>>)
    ensures
        match r {
            Some(j) => json_after(html@, nd@) == Some(j@),
            None => json_after(html@, nd@) is None,
        },
{
    proof {
        lemma_find_from(html@, nd@, 0);
    }
    match find_from_exec(html, nd, 0) {
        Some(pos) => {
            let hl = html.len();
            assert(hl == html@.len());
            let mut a = pos + nd.len();
            while a < html.len() && is_ws_exec(html[a])
                invariant
                    pos + nd@.len() <= a <= html@.len(),
                    trim_start(html@.skip(pos + nd@.len())) == trim_start(html@.skip(a as int)),
                decreases html@.len() - a,
            {
                assert(html@.skip(a as int).drop_first() =~= html@.skip(a + 1));
                a = a + 1;
            }
            let mut t: Vec<char> = Vec::new();
            let mut k = a;
            while k < html.len()
                invariant
                    a <= k <= html@.len(),
                    t@ == html@.subrange(a as int, k as int),
                decreases html@.len() - k,
            {
                t.push(html[k]);
                k = k + 1;
            }
            assert(t@ =~= html@.skip(a as int));
            assert(t@.len() == 0 || !crate::text::is_ws(t@[0]));
            assert(trim_start(t@) == t@);
            if t.len() > 0 && (t[0] == '{' || t[0] == '[') {
                proof {
                    lemma_json_scan_bound(t@, 0, 0, false, false);
                }
                match find_json_end(t.as_slice()) {
                    Some(e) => {
                        let mut out: Vec<char> = Vec::new();
                        let mut j: usize = 0;
                        while j < e && j < t.len()
                            invariant
                                j <= e,
                                j <= t@.len(),
                                out@ == t@.take(j as int),
                            decreases e - j,
                        {
                            out.push(t[j]);
                            j = j + 1;
                            assert(out@ =~= t@.take(j as int));
                        }
                        assert(out@ =~= t@.take(e as int));
                        Some(out)
                    },
                    None => None,
                }
            } else {
                None
            }
        },
        None => None,
    }
}

// ── Escaping ────────────────────────────────────────────────────────────────

pub open spec fn esc_char(c: char) -> Seq<char> {
    if c == '&' {
        "&amp;"@
    } else if c == '<' {
        "&lt;"@
    } else if c == '>' {
        "&gt;"@
    } else if c == '"' {
        "&quot;"@
    } else if c == '\'' {
        "&#x27;"@
    } else {
        seq![c]
    }
}

/// `&`, `<`, `>`, `"` and `'` written as character references.
pub open spec fn html_esc(s: Seq<char>) -> Seq<char>
    decreases s.len(),
{
    if s.len() == 0 {
        Seq::empty()
    } else {
        html_esc(s.drop_last()) + esc_char(s.last())
    }
}

/// No character that could open or close markup or an attribute value.
pub open spec fn markup_free(c: char) -> bool {
    c != '<' && c != '>' && c != '"' && c != '\''
}

/// Escaped text holds no `<`, `>`, `"` or `'`, so it cannot open a tag or
/// leave an attribute value.
pub proof fn lemma_escaped_is_inert(s: Seq<char>)
    ensures
        forall|i: int| 0 <= i < html_esc(s).len() ==> markup_free(#[trigger] html_esc(s)[i]),
    decreases s.len(),
{
    if s.len() > 0 {
        lemma_escaped_is_inert(s.drop_last());
        reveal_strlit("&amp;");
        reveal_strlit("&lt;");
        reveal_strlit("&gt;");
        reveal_strlit("&quot;");
        reveal_strlit("&#x27;");
        let a = html_esc(s.drop_last());
        let b = esc_char(s.last());
        assert forall|i: int| 0 <= i < b.len() implies markup_free(#[trigger] b[i]) by {}
        assert forall|i: int| 0 <= i < html_esc(s).len() implies markup_free(#[trigger] html_esc(s)[i]) by {
            if i < a.len() {
                assert(html_esc(s)[i] == a[i]);
            } else {
                assert(html_esc(s)[i] == b[i - a.len()]);
            }
        }
    }
}

/// Escapes text for HTML; see `html_esc`.
pub fn html_escape(s: &str) -> (r: String)
    ensures
        r@ == html_esc(s@),
{
    let cs = chars_of(s);
    let mut out = String::new();
    let mut i: usize = 0;
    assert(cs@.take(0) =~= Seq::<char>::empty());
    while i < cs.len()
        invariant
            i <= cs@.len(),
            cs@ == s@,
            out@ == html_esc(cs@.take(i as int)),
        decreases cs@.len() - i,
    {
        let ghost t = cs@.take(i + 1);
        assert(t.drop_last() =~= cs@.take(i as int));
        let c = cs[i];
        if c == '&' {
            out.append("&amp;");
        } else if c == '<' {
            out.append("&lt;");
        } else if c == '>' {
            out.append("&gt;");
        } else if c == '"' {
            out.append("&quot;");
        } else if c == '\'' {
            out.append("&#x27;");
        } else {
            let ghost o = out@;
            crate::text::push_char(&mut out, c);
            assert(out@ =~= o + seq![c]);
        }
        i = i + 1;
    }
    assert(cs@.take(cs@.len() as int) =~= cs@);
    out
}

// ── YouTube video grid ──────────────────────────────────────────────────────

pub const CARD_OPEN: &'static str = "<div style=\"background:#1a1a1a;border-radius:8px;overflow:hidden\">\n              <a href=\"";
pub const CARD_AFTER_URL: &'static str = "\" style=\"text-decoration:none;color:inherit\">\n                <img src=\"";
pub const CARD_AFTER_THUMB: &'static str = "\" style=\"width:100%;aspect-ratio:16/9;object-fit:cover;display:block\" loading=\"lazy\">\n                <div style=\"padding:10px\">\n                  <div style=\"font-size:14px;font-weight:600;color:#fff;line-height:1.4;margin-bottom:6px\">";
pub const CARD_AFTER_TITLE: &'static str = "</div>\n                  <div style=\"font-size:12px;color:#aaa\">";
pub const CARD_AFTER_CHANNEL: &'static str = "</div>\n                  <div style=\"font-size:11px;color:#777;margin-top:2px\">";
pub const CARD_CLOSE: &'static str = "</div>\n                </div>\n              </a>\n            </div>";
pub const LINKS_OPEN: &'static str = "<div style=\"display:flex;gap:10px;flex-wrap:wrap\">\n            <a href=\"";
pub const LINKS_AFTER_WATCH: &'static str = "\" style=\"padding:9px 14px;background:#ff0033;color:#fff;border-radius:8px;text-decoration:none;font-weight:600\">Open watch URL</a>\n            <a href=\"";
pub const LINKS_CLOSE: &'static str = "\" style=\"padding:9px 14px;background:#263238;color:#fff;border-radius:8px;text-decoration:none\">Related videos</a>\n          </div>";

/// A video: id, title, channel, views.
pub type Video = (String, String, String, String);

pub type VideoView = (Seq<char>, Seq<char>, Seq<char>, Seq<char>);

pub open spec fn video_view(v: Video) -> VideoView {
    (v.0@, v.1@, v.2@, v.3@)
}

pub open spec fn videos_view(v: Seq<Video>) -> Seq<VideoView> {
    v.map_values(|x: Video| video_view(x))
}

pub open spec fn watch_url(id: Seq<char>) -> Seq<char> {
    "https://www.youtube.com/watch?v="@ + id
}

pub open spec fn thumb_url(id: Seq<char>) -> Seq<char> {
    "https://i.ytimg.com/vi/"@ + id + "/hqdefault.jpg"@
}

/// One card of the grid; the views text is written as it is.
pub open spec fn video_card(v: VideoView) -> Seq<char> {
    CARD_OPEN@ + watch_url(v.0) + CARD_AFTER_URL@ + thumb_url(v.0) + CARD_AFTER_THUMB@ + html_esc(v.1)
        + CARD_AFTER_TITLE@ + html_esc(v.2) + CARD_AFTER_CHANNEL@ + v.3 + CARD_CLOSE@
}

pub open spec fn video_cards(vs: Seq<VideoView>) -> Seq<char>
    decreases vs.len(),
{
    if vs.len() == 0 {
        Seq::empty()
    } else {
        video_cards(vs.drop_last()) + video_card(vs.last())
    }
}

pub const GRID_OPEN: &'static str = "<div id=\"bose-spa-content\" style=\"font-family:Arial,sans-serif;padding:16px;background:#0f0f0f;color:#fff;min-height:100vh\">";

pub const GRID_HEADER_OPEN: &'static str = "<div style=\"display:flex;align-items:center;gap:12px;margin-bottom:20px;border-bottom:1px solid #333;padding-bottom:12px\">";

pub const GRID_TITLE_OPEN: &'static str = "<span style=\"color:#ff0000;font-size:22px;font-weight:bold\">▶ ";

pub const GRID_TITLE_CLOSE: &'static str = "</span>";

pub const GRID_CREDIT: &'static str = "<span style=\"color:#aaa;font-size:12px\">— rendered by Bose engine</span>";

pub const GRID_CELLS_OPEN: &'static str = "<div style=\"display:grid;grid-template-columns:repeat(auto-fill,minmax(280px,1fr));gap:16px\">";

/// The grid page for `videos` under `heading`.
pub open spec fn youtube_grid(vs: Seq<VideoView>, heading: Seq<char>) -> Seq<char> {
    GRID_OPEN@ + GRID_HEADER_OPEN@ + GRID_TITLE_OPEN@ + html_esc(heading) + GRID_TITLE_CLOSE@ + GRID_CREDIT@ + "</div>"@
        + GRID_CELLS_OPEN@ + video_cards(vs) + "</div></div>"@
}

fn push_card(html: &mut String, v: &Video)
    ensures
        final(html)@ == old(html)@ + video_card(video_view(*v)),
{
    let ghost h0 = html@;
    html.append(CARD_OPEN);
    html.append("https://www.youtube.com/watch?v=");
    html.append(v.0.as_str());
    html.append(CARD_AFTER_URL);
    html.append("https://i.ytimg.com/vi/");
    html.append(v.0.as_str());
    html.append("/hqdefault.jpg");
    html.append(CARD_AFTER_THUMB);
    let t = html_escape(v.1.as_str());
    html.append(t.as_str());
    html.append(CARD_AFTER_TITLE);
    let c = html_escape(v.2.as_str());
    html.append(c.as_str());
    html.append(CARD_AFTER_CHANNEL);
    html.append(v.3.as_str());
    html.append(CARD_CLOSE);
    assert(html@ =~= h0 + video_card(video_view(*v)));
}

/// The video grid page: a heading, then one card per video linking to its
/// watch page.
pub fn build_youtube_html(videos: &[Video], heading: &str) -> (r: String)
    ensures
        r@ == youtube_grid(videos_view(videos@), heading@),
{
    let mut html = String::new();
    html.append(GRID_OPEN);
    html.append(GRID_HEADER_OPEN);
    html.append(GRID_TITLE_OPEN);
    let h = html_escape(heading);
    html.append(h.as_str());
    html.append(GRID_TITLE_CLOSE);
    html.append(GRID_CREDIT);
    html.append("</div>");
    html.append(GRID_CELLS_OPEN);
    let ghost pre = html@;
    let ghost vv = videos_view(videos@);
    let mut i: usize = 0;
    assert(vv.take(0) =~= Seq::<VideoView>::empty());
    assert(html@ =~= pre + video_cards(vv.take(0)));
    while i < videos.len()
        invariant
            i <= videos@.len(),
            vv == videos_view(videos@),
            html@ == pre + video_cards(vv.take(i as int)),
        decreases videos@.len() - i,
    {
        let ghost t = vv.take(i + 1);
        assert(t.drop_last() =~= vv.take(i as int));
        assert(t.last() == video_view(videos@[i as int]));
        push_card(&mut html, &videos[i]);
        i = i + 1;
        assert(html@ =~= pre + video_cards(vv.take(i as int)));
    }
    assert(vv.take(videos@.len() as int) =~= vv);
    html.append("</div></div>");
    assert(html@ =~= youtube_grid(vv, heading@));
    html
}

// ── Reading videos out of YouTube's data ────────────────────────────────────

pub open spec fn first_some(a: Option<JsonView>, b: Option<JsonView>) -> Option<JsonView> {
    if a is Some {
        a
    } else {
        b
    }
}

pub open spec fn str_or_empty(o: Option<JsonView>) -> Seq<char> {
    match as_str(o) {
        Some(s) => s,
        None => Seq::empty(),
    }
}

pub open spec fn opt_json(o: Option<&JsonValue>) -> Option<JsonView> {
    match o {
        Some(v) => Some(v@),
        None => None,
    }
}

/// A video read from a `videoRenderer`: its id must be a string and its
/// title, the first of two places that exists, must not be empty.
pub open spec fn video_of(v: JsonView) -> Option<VideoView> {
    match as_str(get_key(v, "videoId"@)) {
        None => None,
        Some(id) => {
            let title = str_or_empty(first_some(
                pointer_spec(v, seq!["title"@, "runs"@, "0"@, "text"@]),
                pointer_spec(v, seq!["title"@, "simpleText"@]),
            ));
            let channel = str_or_empty(first_some(
                pointer_spec(v, seq!["ownerText"@, "runs"@, "0"@, "text"@]),
                first_some(
                    pointer_spec(v, seq!["longBylineText"@, "runs"@, "0"@, "text"@]),
                    pointer_spec(v, seq!["shortBylineText"@, "runs"@, "0"@, "text"@]),
                ),
            ));
            let views = str_or_empty(first_some(
                pointer_spec(v, seq!["viewCountText"@, "simpleText"@]),
                pointer_spec(v, seq!["shortViewCountText"@, "simpleText"@]),
            ));
            if title.len() == 0 {
                None
            } else {
                Some((id, title, channel, views))
            }
        },
    }
}

fn toks2(a: &'static str, b: &'static str) -> (r: Vec<&'static str>)
    ensures
        toks_view(r@) == seq![a@, b@],
{
    let mut v = Vec::new();
    v.push(a);
    v.push(b);
    assert(toks_view(v@) =~= seq![a@, b@]);
    v
}

fn toks3(a: &'static str, b: &'static str, c: &'static str) -> (r: Vec<&'static str>)
    ensures
        toks_view(r@) == seq![a@, b@, c@],
{
    let mut v = Vec::new();
    v.push(a);
    v.push(b);
    v.push(c);
    assert(toks_view(v@) =~= seq![a@, b@, c@]);
    v
}

fn toks4(a: &'static str, b: &'static str, c: &'static str, d: &'static str) -> (r: Vec<&'static str>)
    ensures
        toks_view(r@) == seq![a@, b@, c@, d@],
{
    let mut v = Vec::new();
    v.push(a);
    v.push(b);
    v.push(c);
    v.push(d);
    assert(toks_view(v@) =~= seq![a@, b@, c@, d@]);
    v
}

fn toks5(a: &'static str, b: &'static str, c: &'static str, d: &'static str, e: &'static str) -> (r: Vec<&'static str>)
    ensures
        toks_view(r@) == seq![a@, b@, c@, d@, e@],
{
    let mut v = Vec::new();
    v.push(a);
    v.push(b);
    v.push(c);
    v.push(d);
    v.push(e);
    assert(toks_view(v@) =~= seq![a@, b@, c@, d@, e@]);
    v
}

fn or_else<'a>(a: Option<&'a JsonValue>, b: Option<&'a JsonValue>) -> (r: Option<&'a JsonValue>)
    ensures
        opt_json(r) == first_some(opt_json(a), opt_json(b)),
{
    match a {
        Some(x) => Some(x),
        None => b,
    }
}

fn str_or_blank(o: Option<&JsonValue>) -> (r: String)
    ensures
        r@ == str_or_empty(opt_json(o)),
{
    match o {
        Some(v) => match v.as_str() {
            Some(s) => s.to_owned(),
            None => String::new(),
        },
        None => String::new(),
    }
}

/// The video a `videoRenderer` describes; see `video_of`.
pub fn extract_video(v: &JsonValue) -> (r: Option<Video>)
    ensures
        match r {
            Some(x) => video_of(v@) == Some(video_view(x)),
            None => video_of(v@) is None,
        },
{
    let id = match v.get_key("videoId") {
        Some(x) => match x.as_str() {
            Some(s) => s.to_owned(),
            None => return None,
        },
        None => return None,
    };
    let title = str_or_blank(or_else(
        v.pointer(toks4("title", "runs", "0", "text").as_slice()),
        v.pointer(toks2("title", "simpleText").as_slice()),
    ));
    let channel = str_or_blank(or_else(
        v.pointer(toks4("ownerText", "runs", "0", "text").as_slice()),
        or_else(
            v.pointer(toks4("longBylineText", "runs", "0", "text").as_slice()),
            v.pointer(toks4("shortBylineText", "runs", "0", "text").as_slice()),
        ),
    ));
    let views = str_or_blank(or_else(
        v.pointer(toks2("viewCountText", "simpleText").as_slice()),
        v.pointer(toks2("shortViewCountText", "simpleText").as_slice()),
    ));
    if title.as_str().is_empty() {
        return None;
    }
    Some((id, title, channel, views))
}

pub open spec fn opt_video(o: Option<VideoView>) -> Seq<VideoView> {
    match o {
        Some(x) => seq![x],
        None => Seq::empty(),
    }
}

/// Every video found by looking through `v` and what it holds, at most 12
/// levels below `depth` 0: an object with a `videoId` member counts itself
/// before its members, in order.
pub open spec fn deep_videos(v: JsonView, depth: nat) -> Seq<VideoView>
    decreases v,
{
    if depth > 12 {
        Seq::empty()
    } else {
        match v {
            JsonView::Object(ms) => (if member(ms, "videoId"@) is Some {
                opt_video(video_of(v))
            } else {
                Seq::empty()
            }) + deep_members(ms, depth + 1),
            JsonView::Array(a) => deep_list(a, depth + 1),
            _ => Seq::empty(),
        }
    }
}

pub open spec fn deep_list(a: Seq<JsonView>, depth: nat) -> Seq<VideoView>
    decreases a,
{
    if a.len() == 0 {
        Seq::empty()
    } else {
        deep_list(a.drop_last(), depth) + deep_videos(a.last(), depth)
    }
}

pub open spec fn deep_members(ms: Seq<(Seq<char>, JsonView)>, depth: nat) -> Seq<VideoView>
    decreases ms,
{
    if ms.len() == 0 {
        Seq::empty()
    } else {
        proof {
            assert(decreases_to!(ms => ms[ms.len() - 1]));
        }
        deep_members(ms.drop_last(), depth) + deep_videos(ms.last().1, depth)
    }
}

/// Every video anywhere in `val`; see `deep_videos`.
pub fn deep_find_videos(val: &JsonValue, depth: usize) -> (r: Vec<Video>)
    ensures
        videos_view(r@) == deep_videos(val@, depth as nat),
    decreases val@,
{
    let mut found: Vec<Video> = Vec::new();
    if depth > 12 {
        assert(videos_view(found@) =~= Seq::<VideoView>::empty());
        return found;
    }
    match val {
        JsonValue::Object(ms) => {
            let ghost mv = json_members(ms@);
            proof {
                lemma_json_members(ms@);
            }
            if val.get_key("videoId").is_some() {
                match extract_video(val) {
                    Some(v) => found.push(v),
                    None => {},
                }
            }
            let ghost own = videos_view(found@);
            assert(own =~= (if member(mv, "videoId"@) is Some {
                opt_video(video_of(val@))
            } else {
                Seq::empty()
            }));
            let mut i: usize = 0;
            assert(mv.take(0) =~= Seq::<(Seq<char>, JsonView)>::empty());
            assert(videos_view(found@) =~= own + deep_members(mv.take(0), depth as nat + 1));
            while i < ms.len()
                invariant
                    i <= ms@.len(),
                    depth <= 12,
                    mv == json_members(ms@),
                    mv.len() == ms@.len(),
                    val@ == JsonView::Object(mv),
                    forall|j: int| 0 <= j < ms@.len() ==> #[trigger] mv[j] == (ms@[j].0@, json_view(ms@[j].1)),
                    videos_view(found@) == own + deep_members(mv.take(i as int), depth as nat + 1),
                decreases ms@.len() - i,
            {
                let ghost t = mv.take(i + 1);
                assert(t.drop_last() =~= mv.take(i as int));
                assert(t.last() == mv[i as int]);
                assert(decreases_to!(val@ => mv[i as int].1)) by {
                    let w = val@;
                    assert(w->Object_0 == mv);
                    assert(decreases_to!(w => w->Object_0));
                    assert(decreases_to!(mv => mv[i as int]));
                    assert(decreases_to!(mv[i as int] => mv[i as int].1));
                }
                let mut sub = deep_find_videos(&ms[i].1, depth + 1);
                let ghost before = videos_view(found@);
                found.append(&mut sub);
                assert(videos_view(found@) =~= before + deep_videos(mv[i as int].1, depth as nat + 1));
                i = i + 1;
            }
            assert(mv.take(ms@.len() as int) =~= mv);
        },
        JsonValue::Array(a) => {
            let ghost av = json_views(a@);
            proof {
                lemma_json_views(a@);
            }
            let mut i: usize = 0;
            assert(av.take(0) =~= Seq::<JsonView>::empty());
            assert(videos_view(found@) =~= deep_list(av.take(0), depth as nat + 1));
            while i < a.len()
                invariant
                    i <= a@.len(),
                    depth <= 12,
                    av == json_views(a@),
                    av.len() == a@.len(),
                    val@ == JsonView::Array(av),
                    forall|j: int| 0 <= j < a@.len() ==> #[trigger] av[j] == json_view(a@[j]),
                    videos_view(found@) == deep_list(av.take(i as int), depth as nat + 1),
                decreases a@.len() - i,
            {
                let ghost t = av.take(i + 1);
                assert(t.drop_last() =~= av.take(i as int));
                assert(t.last() == av[i as int]);
                assert(decreases_to!(val@ => av[i as int])) by {
                    let w = val@;
                    assert(w->Array_0 == av);
                    assert(decreases_to!(w => w->Array_0));
                    assert(decreases_to!(av => av[i as int]));
                }
                let mut sub = deep_find_videos(&a[i], depth + 1);
                let ghost before = videos_view(found@);
                found.append(&mut sub);
                assert(videos_view(found@) =~= before + deep_videos(av[i as int], depth as nat + 1));
                i = i + 1;
            }
            assert(av.take(a@.len() as int) =~= av);
        },
        _ => {
            assert(videos_view(found@) =~= Seq::<VideoView>::empty());
        },
    }
    found
}

pub open spec fn array_items(v: JsonView) -> Seq<JsonView> {
    match v {
        JsonView::Array(a) => a,
        _ => Seq::empty(),
    }
}

/// `f` of each item, concatenated in order.
pub open spec fn concat_map(items: Seq<JsonView>, f: spec_fn(JsonView) -> Seq<VideoView>) -> Seq<VideoView>
    decreases items.len(),
{
    if items.len() == 0 {
        Seq::empty()
    } else {
        concat_map(items.drop_last(), f) + f(items.last())
    }
}

pub open spec fn rich_item_video(item: JsonView) -> Seq<VideoView> {
    match pointer_spec(item, seq!["richItemRenderer"@, "content"@, "videoRenderer"@]) {
        Some(video) => opt_video(video_of(video)),
        None => Seq::empty(),
    }
}

pub open spec fn grid_item_videos(item: JsonView) -> Seq<VideoView> {
    rich_item_video(item) + match pointer_spec(
        item,
        seq!["richSectionRenderer"@, "content"@, "richShelfRenderer"@, "contents"@],
    ) {
        Some(shelf) => concat_map(array_items(shelf), |x: JsonView| rich_item_video(x)),
        None => Seq::empty(),
    }
}

/// The videos of a home or channel page: the first tab's grid, with the
/// videos of its shelves.
pub open spec fn browse_videos(data: JsonView) -> Seq<VideoView> {
    match pointer_spec(data, seq!["contents"@, "twoColumnBrowseResultsRenderer"@, "tabs"@]) {
        Some(tabs) => match get_index(tabs, 0) {
            Some(tab) => match pointer_spec(tab, seq!["tabRenderer"@, "content"@, "richGridRenderer"@, "contents"@]) {
                Some(items) => concat_map(array_items(items), |x: JsonView| grid_item_videos(x)),
                None => Seq::empty(),
            },
            None => Seq::empty(),
        },
        None => Seq::empty(),
    }
}

pub open spec fn search_item_video(item: JsonView) -> Seq<VideoView> {
    opt_video(video_of(match get_key(item, "videoRenderer"@) {
        Some(x) => x,
        None => item,
    }))
}

pub open spec fn section_videos(section: JsonView) -> Seq<VideoView> {
    match pointer_spec(section, seq!["itemSectionRenderer"@, "contents"@]) {
        Some(c) => concat_map(array_items(c), |x: JsonView| search_item_video(x)),
        None => Seq::empty(),
    }
}

/// The videos of a search results page.
pub open spec fn search_videos(data: JsonView) -> Seq<VideoView> {
    match pointer_spec(
        data,
        seq!["contents"@, "twoColumnSearchResultsRenderer"@, "primaryContents"@, "sectionListRenderer"@, "contents"@],
    ) {
        Some(items) => concat_map(array_items(items), |x: JsonView| section_videos(x)),
        None => Seq::empty(),
    }
}

/// The videos of the page: those of a browse page, else those of a search
/// page, else any found anywhere in the data.
pub open spec fn youtube_videos(data: JsonView) -> Seq<VideoView> {
    let a = browse_videos(data);
    if a.len() > 0 {
        a
    } else {
        let b = search_videos(data);
        if b.len() > 0 {
            b
        } else {
            deep_videos(data, 0)
        }
    }
}

fn push_videos(out: &mut Vec<Video>, o: Option<Video>)
    ensures
        videos_view(final(out)@) == videos_view(old(out)@) + opt_video(match o {
            Some(x) => Some(video_view(x)),
            None => None,
        }),
{
    let ghost o0 = videos_view(out@);
    match o {
        Some(x) => {
            out.push(x);
            assert(videos_view(out@) =~= o0 + seq![video_view(x)]);
        },
        None => {
            assert(videos_view(out@) =~= o0 + Seq::<VideoView>::empty());
        },
    }
}

fn rich_item_exec(item: &JsonValue, out: &mut Vec<Video>)
    ensures
        videos_view(final(out)@) == videos_view(old(out)@) + rich_item_video(item@),
{
    match item.pointer(toks3("richItemRenderer", "content", "videoRenderer").as_slice()) {
        Some(video) => {
            let v = extract_video(video);
            push_videos(out, v);
        },
        None => {
            assert(videos_view(out@) =~= videos_view(out@) + Seq::<VideoView>::empty());
        },
    }
}

fn shelf_exec(shelf: &JsonValue, out: &mut Vec<Video>)
    ensures
        videos_view(final(out)@) == videos_view(old(out)@) + concat_map(array_items(shelf@), |x: JsonView| rich_item_video(x)),
{
    let ghost o0 = videos_view(out@);
    let ghost f = |x: JsonView| rich_item_video(x);
    match shelf {
        JsonValue::Array(a) => {
            let ghost av = json_views(a@);
            proof {
                lemma_json_views(a@);
            }
            assert(array_items(shelf@) == av);
            let mut i: usize = 0;
            assert(av.take(0) =~= Seq::<JsonView>::empty());
            assert(videos_view(out@) =~= o0 + concat_map(av.take(0), f));
            while i < a.len()
                invariant
                    i <= a@.len(),
                    av == json_views(a@),
                    av.len() == a@.len(),
                    f == (|x: JsonView| rich_item_video(x)),
                    forall|j: int| 0 <= j < a@.len() ==> #[trigger] av[j] == json_view(a@[j]),
                    videos_view(out@) == o0 + concat_map(av.take(i as int), f),
                decreases a@.len() - i,
            {
                let ghost t = av.take(i + 1);
                assert(t.drop_last() =~= av.take(i as int));
                assert(t.last() == av[i as int]);
                let ghost before = videos_view(out@);
                rich_item_exec(&a[i], out);
                i = i + 1;
                assert(videos_view(out@) =~= o0 + concat_map(av.take(i as int), f));
            }
            assert(av.take(a@.len() as int) =~= av);
        },
        _ => {
            assert(videos_view(out@) =~= o0 + Seq::<VideoView>::empty());
        },
    }
}

fn grid_item_exec(item: &JsonValue, out: &mut Vec<Video>)
    ensures
        videos_view(final(out)@) == videos_view(old(out)@) + grid_item_videos(item@),
{
    let ghost o0 = videos_view(out@);
    rich_item_exec(item, out);
    let ghost o1 = videos_view(out@);
    match item.pointer(toks4("richSectionRenderer", "content", "richShelfRenderer", "contents").as_slice()) {
        Some(shelf) => shelf_exec(shelf, out),
        None => {},
    }
    assert(videos_view(out@) =~= o0 + grid_item_videos(item@));
}

fn grid_exec(items: &JsonValue, out: &mut Vec<Video>)
    ensures
        videos_view(final(out)@) == videos_view(old(out)@) + concat_map(array_items(items@), |x: JsonView| grid_item_videos(x)),
{
    let ghost o0 = videos_view(out@);
    let ghost f = |x: JsonView| grid_item_videos(x);
    match items {
        JsonValue::Array(a) => {
            let ghost av = json_views(a@);
            proof {
                lemma_json_views(a@);
            }
            assert(array_items(items@) == av);
            let mut i: usize = 0;
            assert(av.take(0) =~= Seq::<JsonView>::empty());
            assert(videos_view(out@) =~= o0 + concat_map(av.take(0), f));
            while i < a.len()
                invariant
                    i <= a@.len(),
                    av == json_views(a@),
                    av.len() == a@.len(),
                    f == (|x: JsonView| grid_item_videos(x)),
                    forall|j: int| 0 <= j < a@.len() ==> #[trigger] av[j] == json_view(a@[j]),
                    videos_view(out@) == o0 + concat_map(av.take(i as int), f),
                decreases a@.len() - i,
            {
                let ghost t = av.take(i + 1);
                assert(t.drop_last() =~= av.take(i as int));
                assert(t.last() == av[i as int]);
                grid_item_exec(&a[i], out);
                i = i + 1;
                assert(videos_view(out@) =~= o0 + concat_map(av.take(i as int), f));
            }
            assert(av.take(a@.len() as int) =~= av);
        },
        _ => {
            assert(videos_view(out@) =~= o0 + Seq::<VideoView>::empty());
        },
    }
}

fn search_item_exec(item: &JsonValue, out: &mut Vec<Video>)
    ensures
        videos_view(final(out)@) == videos_view(old(out)@) + search_item_video(item@),
{
    let target = match item.get_key("videoRenderer") {
        Some(x) => x,
        None => item,
    };
    let v = extract_video(target);
    push_videos(out, v);
}

fn section_items_exec(c: &JsonValue, out: &mut Vec<Video>)
    ensures
        videos_view(final(out)@) == videos_view(old(out)@) + concat_map(array_items(c@), |x: JsonView| search_item_video(x)),
{
    let ghost o0 = videos_view(out@);
    let ghost f = |x: JsonView| search_item_video(x);
    match c {
        JsonValue::Array(a) => {
            let ghost av = json_views(a@);
            proof {
                lemma_json_views(a@);
            }
            assert(array_items(c@) == av);
            let mut i: usize = 0;
            assert(av.take(0) =~= Seq::<JsonView>::empty());
            assert(videos_view(out@) =~= o0 + concat_map(av.take(0), f));
            while i < a.len()
                invariant
                    i <= a@.len(),
                    av == json_views(a@),
                    av.len() == a@.len(),
                    f == (|x: JsonView| search_item_video(x)),
                    forall|j: int| 0 <= j < a@.len() ==> #[trigger] av[j] == json_view(a@[j]),
                    videos_view(out@) == o0 + concat_map(av.take(i as int), f),
                decreases a@.len() - i,
            {
                let ghost t = av.take(i + 1);
                assert(t.drop_last() =~= av.take(i as int));
                assert(t.last() == av[i as int]);
                search_item_exec(&a[i], out);
                i = i + 1;
                assert(videos_view(out@) =~= o0 + concat_map(av.take(i as int), f));
            }
            assert(av.take(a@.len() as int) =~= av);
        },
        _ => {
            assert(videos_view(out@) =~= o0 + Seq::<VideoView>::empty());
        },
    }
}

fn sections_exec(items: &JsonValue, out: &mut Vec<Video>)
    ensures
        videos_view(final(out)@) == videos_view(old(out)@) + concat_map(array_items(items@), |x: JsonView| section_videos(x)),
{
    let ghost o0 = videos_view(out@);
    let ghost f = |x: JsonView| section_videos(x);
    match items {
        JsonValue::Array(a) => {
            let ghost av = json_views(a@);
            proof {
                lemma_json_views(a@);
            }
            assert(array_items(items@) == av);
            let mut i: usize = 0;
            assert(av.take(0) =~= Seq::<JsonView>::empty());
            assert(videos_view(out@) =~= o0 + concat_map(av.take(0), f));
            while i < a.len()
                invariant
                    i <= a@.len(),
                    av == json_views(a@),
                    av.len() == a@.len(),
                    f == (|x: JsonView| section_videos(x)),
                    forall|j: int| 0 <= j < a@.len() ==> #[trigger] av[j] == json_view(a@[j]),
                    videos_view(out@) == o0 + concat_map(av.take(i as int), f),
                decreases a@.len() - i,
            {
                let ghost t = av.take(i + 1);
                assert(t.drop_last() =~= av.take(i as int));
                assert(t.last() == av[i as int]);
                let ghost before = videos_view(out@);
                match a[i].pointer(toks2("itemSectionRenderer", "contents").as_slice()) {
                    Some(c) => section_items_exec(c, out),
                    None => {
                        assert(videos_view(out@) =~= before + Seq::<VideoView>::empty());
                    },
                }
                i = i + 1;
                assert(videos_view(out@) =~= o0 + concat_map(av.take(i as int), f));
            }
            assert(av.take(a@.len() as int) =~= av);
        },
        _ => {
            assert(videos_view(out@) =~= o0 + Seq::<VideoView>::empty());
        },
    }
}

/// The videos of YouTube's page data; see `youtube_videos`.
pub fn collect_youtube_videos(data: &JsonValue) -> (r: Vec<Video>)
    ensures
        videos_view(r@) == youtube_videos(data@),
{
    let mut videos: Vec<Video> = Vec::new();
    assert(videos_view(videos@) =~= Seq::<VideoView>::empty());
    match data.pointer(toks3("contents", "twoColumnBrowseResultsRenderer", "tabs").as_slice()) {
        Some(tabs) => match tabs.get_index(0) {
            Some(tab) => match tab.pointer(toks4("tabRenderer", "content", "richGridRenderer", "contents").as_slice()) {
                Some(items) => grid_exec(items, &mut videos),
                None => {},
            },
            None => {},
        },
        None => {},
    }
    assert(videos_view(videos@) =~= browse_videos(data@));
    if videos.len() > 0 {
        return videos;
    }
    let mut found: Vec<Video> = Vec::new();
    assert(videos_view(found@) =~= Seq::<VideoView>::empty());
    match data.pointer(
        toks5("contents", "twoColumnSearchResultsRenderer", "primaryContents", "sectionListRenderer", "contents").as_slice(),
    ) {
        Some(items) => sections_exec(items, &mut found),
        None => {},
    }
    assert(videos_view(found@) =~= search_videos(data@));
    if found.len() > 0 {
        return found;
    }
    deep_find_videos(data, 0)
}

// ── Rendering JSON as HTML ──────────────────────────────────────────────────

pub const ELLIPSIS_SPAN: &'static str = "<span style='color:#888'>[...]</span>";

pub const TABLE_OPEN: &'static str = "<table style='border-collapse:collapse;width:100%;font-size:13px'>";

pub const KEY_CELL_OPEN: &'static str = "<td style='padding:2px 8px 2px 0;color:#666;vertical-align:top;white-space:nowrap'>";

pub const KEY_CELL_CLOSE: &'static str = "</td><td style='padding:2px 0'>";

pub const MORE_OPEN: &'static str = "<tr><td colspan=2 style='color:#888;font-size:11px'>...";

pub const MORE_CLOSE: &'static str = " more</td></tr>";

pub const ITEMS_OPEN: &'static str = "<span style='color:#888'>[";

pub const ITEMS_CLOSE: &'static str = " items]</span>";

pub const NULL_SPAN: &'static str = "<span style='color:#888'>null</span>";

/// The number of characters of `s` from `k` on whose UTF-8 encoding takes
/// exactly `n` bytes, if the `n`-th byte ends a character.
pub open spec fn cut_from(s: Seq<char>, n: nat, k: int) -> Option<int>
    decreases s.len() - k,
{
    if k < 0 || k > s.len() {
        None
    } else if utf8_len(s.take(k)) == n {
        Some(k)
    } else if utf8_len(s.take(k)) > n || k == s.len() {
        None
    } else {
        cut_from(s, n, k + 1)
    }
}

pub open spec fn cut_at(s: Seq<char>, n: nat) -> Option<int> {
    cut_from(s, n, 0)
}

/// A string longer than 200 bytes is cut to its first 200 bytes and marked
/// with an ellipsis.
pub open spec fn shown_text(s: Seq<char>) -> Seq<char> {
    if utf8_len(s) > 200 {
        match cut_at(s, 200) {
            Some(k) => s.take(k) + "…"@,
            None => s,
        }
    } else {
        s
    }
}

pub open spec fn min30(n: nat) -> nat {
    if n < 30 {
        n
    } else {
        30
    }
}

/// A value as readable HTML: objects as tables of their first 30 members,
/// arrays by their length, anything more than 4 levels down as `[...]`.
pub open spec fn render(v: JsonView, depth: nat) -> Seq<char>
    decreases v, 0nat,
{
    if depth > 4 {
        ELLIPSIS_SPAN@
    } else {
        match v {
            JsonView::Object(ms) => TABLE_OPEN@ + rows(ms, min30(ms.len()), depth + 1) + (if ms.len() > 30 {
                MORE_OPEN@ + crate::text::decimal((ms.len() - 30) as nat) + MORE_CLOSE@
            } else {
                Seq::empty()
            }) + "</table>"@,
            JsonView::Array(a) => ITEMS_OPEN@ + crate::text::decimal(a.len()) + ITEMS_CLOSE@,
            JsonView::Str(s) => html_esc(shown_text(s)),
            JsonView::Number(n) => n,
            JsonView::Bool(b) => if b {
                "true"@
            } else {
                "false"@
            },
            JsonView::Null => NULL_SPAN@,
        }
    }
}

/// The table rows of the first `k` members.
pub open spec fn rows(ms: Seq<(Seq<char>, JsonView)>, k: nat, depth: nat) -> Seq<char>
    decreases ms, k,
{
    if k == 0 || k > ms.len() {
        Seq::empty()
    } else {
        proof {
            assert(decreases_to!(ms => ms[k - 1]));
        }
        rows(ms, (k - 1) as nat, depth) + "<tr>"@ + KEY_CELL_OPEN@ + html_esc(ms[k - 1].0) + KEY_CELL_CLOSE@ + render(
            ms[k - 1].1,
            depth,
        ) + "</td></tr>"@
    }
}

/// Rendering `v` does not cut a string inside a character (a byte-offset
/// cut there would panic).
pub open spec fn render_ok(v: JsonView, depth: nat) -> bool
    decreases v, 0nat,
{
    if depth > 4 {
        true
    } else {
        match v {
            JsonView::Object(ms) => rows_ok(ms, min30(ms.len()), depth + 1),
            JsonView::Str(s) => utf8_len(s) <= 200 || cut_at(s, 200) is Some,
            _ => true,
        }
    }
}

pub open spec fn rows_ok(ms: Seq<(Seq<char>, JsonView)>, k: nat, depth: nat) -> bool
    decreases ms, k,
{
    if k == 0 || k > ms.len() {
        true
    } else {
        proof {
            assert(decreases_to!(ms => ms[k - 1]));
        }
        rows_ok(ms, (k - 1) as nat, depth) && render_ok(ms[k - 1].1, depth)
    }
}

proof fn lemma_rows_ok(ms: Seq<(Seq<char>, JsonView)>, k: nat, depth: nat, j: int)
    requires
        rows_ok(ms, k, depth),
        k <= ms.len(),
        0 <= j < k,
    ensures
        render_ok(ms[j].1, depth),
    decreases k,
{
    if j < k - 1 {
        lemma_rows_ok(ms, (k - 1) as nat, depth, j);
    }
}

fn cut_chars(cs: &[char], n: usize) -> (r: Option<usize>)
    ensures
        match r {
            Some(k) => cut_at(cs@, n as nat) == Some(k as int) && k <= cs@.len(),
            None => cut_at(cs@, n as nat) is None,
        },
{
    let mut k: usize = 0;
    let mut acc: usize = 0;
    assert(cs@.take(0) =~= Seq::<char>::empty());
    while k <= cs.len()
        invariant
            k <= cs@.len() + 1,
            k <= cs@.len() ==> acc == utf8_len(cs@.take(k as int)),
            k <= cs@.len() ==> acc <= n,
            cut_at(cs@, n as nat) == cut_from(cs@, n as nat, k as int),
        decreases cs@.len() + 1 - k,
    {
        if acc == n {
            return Some(k);
        }
        if k == cs.len() {
            return None;
        }
        let ghost t = cs@.take(k + 1);
        assert(t.drop_last() =~= cs@.take(k as int));
        let w = crate::text::char_bytes_exec(cs[k]);
        if w > n - acc {
            proof {
                assert(utf8_len(t) == acc + w);
                assert(utf8_len(t) > n);
                assert(cut_from(cs@, n as nat, k as int + 1) is None);
                assert(cut_from(cs@, n as nat, k as int) == cut_from(cs@, n as nat, k as int + 1));
            }
            return None;
        }
        acc = acc + w;
        k = k + 1;
    }
    None
}

/// Whether `render` can show `v` without cutting inside a character.
pub fn render_ok_exec(v: &JsonValue, depth: usize) -> (r: bool)
    ensures
        r == render_ok(v@, depth as nat),
    decreases v@,
{
    if depth > 4 {
        return true;
    }
    match v {
        JsonValue::Object(ms) => {
            let ghost mv = json_members(ms@);
            proof {
                lemma_json_members(ms@);
            }
            let n = if ms.len() < 30 { ms.len() } else { 30 };
            let mut i: usize = 0;
            while i < n
                invariant
                    i <= n,
                    n == min30(mv.len()),
                    depth <= 4,
                    mv == json_members(ms@),
                    mv.len() == ms@.len(),
                    v@ == JsonView::Object(mv),
                    forall|j: int| 0 <= j < ms@.len() ==> #[trigger] mv[j] == (ms@[j].0@, json_view(ms@[j].1)),
                    rows_ok(mv, i as nat, depth as nat + 1),
                decreases n - i,
            {
                assert(decreases_to!(v@ => mv[i as int].1)) by {
                    let w = v@;
                    assert(w->Object_0 == mv);
                    assert(decreases_to!(w => w->Object_0));
                    assert(decreases_to!(mv => mv[i as int]));
                    assert(decreases_to!(mv[i as int] => mv[i as int].1));
                }
                if !render_ok_exec(&ms[i].1, depth + 1) {
                    proof {
                        if rows_ok(mv, n as nat, depth as nat + 1) {
                            lemma_rows_ok(mv, n as nat, depth as nat + 1, i as int);
                        }
                    }
                    return false;
                }
                i = i + 1;
            }
            true
        },
        JsonValue::Str(s) => {
            let cs = chars_of(s.as_str());
            let len = utf8_len_capped(cs.as_slice());
            len <= 200 || cut_chars(cs.as_slice(), 200).is_some()
        },
        _ => true,
    }
}

/// Appends the HTML for `val`; see `render`.
fn render_json_as_html(val: &JsonValue, buf: &mut String, depth: usize)
    requires
        render_ok(val@, depth as nat),
    ensures
        final(buf)@ == old(buf)@ + render(val@, depth as nat),
    decreases val@,
{
    let ghost b0 = buf@;
    if depth > 4 {
        buf.append(ELLIPSIS_SPAN);
        return;
    }
    match val {
        JsonValue::Object(ms) => {
            let ghost mv = json_members(ms@);
            proof {
                lemma_json_members(ms@);
            }
            buf.append(TABLE_OPEN);
            let ghost b1 = buf@;
            let n = if ms.len() < 30 { ms.len() } else { 30 };
            let mut i: usize = 0;
            while i < n
                invariant
                    i <= n,
                    n == min30(mv.len()),
                    depth <= 4,
                    mv == json_members(ms@),
                    mv.len() == ms@.len(),
                    val@ == JsonView::Object(mv),
                    rows_ok(mv, n as nat, depth as nat + 1),
                    forall|j: int| 0 <= j < ms@.len() ==> #[trigger] mv[j] == (ms@[j].0@, json_view(ms@[j].1)),
                    buf@ == b1 + rows(mv, i as nat, depth as nat + 1),
                decreases n - i,
            {
                assert(decreases_to!(val@ => mv[i as int].1)) by {
                    let w = val@;
                    assert(w->Object_0 == mv);
                    assert(decreases_to!(w => w->Object_0));
                    assert(decreases_to!(mv => mv[i as int]));
                    assert(decreases_to!(mv[i as int] => mv[i as int].1));
                }
                proof {
                    lemma_rows_ok(mv, n as nat, depth as nat + 1, i as int);
                }
                buf.append("<tr>");
                buf.append(KEY_CELL_OPEN);
                let k = html_escape(ms[i].0.as_str());
                buf.append(k.as_str());
                buf.append(KEY_CELL_CLOSE);
                render_json_as_html(&ms[i].1, buf, depth + 1);
                buf.append("</td></tr>");
                i = i + 1;
                assert(buf@ =~= b1 + rows(mv, i as nat, depth as nat + 1));
            }
            if ms.len() > 30 {
                buf.append(MORE_OPEN);
                let d = crate::text::decimal_string((ms.len() - 30) as u128);
                buf.append(d.as_str());
                buf.append(MORE_CLOSE);
            }
            buf.append("</table>");
            assert(buf@ =~= b0 + render(val@, depth as nat));
        },
        JsonValue::Array(a) => {
            proof {
                lemma_json_views(a@);
            }
            buf.append(ITEMS_OPEN);
            let d = crate::text::decimal_string(a.len() as u128);
            buf.append(d.as_str());
            buf.append(ITEMS_CLOSE);
            assert(buf@ =~= b0 + render(val@, depth as nat));
        },
        JsonValue::Str(s) => {
            let cs = chars_of(s.as_str());
            let len = utf8_len_capped(cs.as_slice());
            if len > 200 {
                match cut_chars(cs.as_slice(), 200) {
                    Some(k) => {
                        let mut shown = String::new();
                        append_range(&mut shown, cs.as_slice(), 0, k);
                        shown.append("…");
                        assert(cs@.subrange(0, k as int) =~= s@.take(k as int));
                        let e = html_escape(shown.as_str());
                        buf.append(e.as_str());
                        assert(shown@ =~= shown_text(s@));
                    },
                    None => {
                        let e = html_escape(s.as_str());
                        buf.append(e.as_str());
                    },
                }
            } else {
                let e = html_escape(s.as_str());
                buf.append(e.as_str());
            }
        },
        JsonValue::Number(n) => {
            buf.append(n.as_str());
        },
        JsonValue::Bool(b) => {
            if *b {
                buf.append("true");
            } else {
                buf.append("false");
            }
        },
        JsonValue::Null => {
            buf.append(NULL_SPAN);
        },
    }
}

// ── Frameworks ──────────────────────────────────────────────────────────────

pub const WATCH_OPEN: &'static str = "<div id=\"bose-spa-content\" style=\"font-family:Arial,sans-serif;background:#111;color:#fff;min-height:100vh;padding:18px\">";

pub const WATCH_NOTICE_OPEN: &'static str = "<div style=\"background:#1e1e1e;border:1px solid #333;border-radius:10px;padding:14px;margin-bottom:14px\">";

pub const WATCH_NOTICE_MODE: &'static str = "<div style=\"font-size:14px;color:#ffcc80;margin-bottom:8px\"><b>Native canvas mode:</b> YouTube playback APIs (MSE/EME/DRM) are not implemented yet.</div>";

pub const WATCH_NOTICE_HINT: &'static str = "<div style=\"font-size:12px;color:#bbb\">Page remains stable in-canvas. Use the <b>Videos -> Play externally</b> action for playback.</div>";

pub const WATCH_GRID_OPEN: &'static str = "<div style=\"display:grid;grid-template-columns:minmax(320px,640px) 1fr;gap:16px;align-items:start\">";

pub const WATCH_IMG_OPEN: &'static str = "<img src=\"";

pub const WATCH_IMG_CLOSE: &'static str = "\" style=\"width:100%;max-width:640px;border-radius:8px;border:1px solid #333\" loading=\"lazy\">";

pub const WATCH_TITLE_OPEN: &'static str = "<div style=\"font-size:22px;font-weight:700;line-height:1.3;margin-bottom:8px\">";

pub const WATCH_DIV_CLOSE: &'static str = "</div>";

pub const WATCH_CHANNEL_OPEN: &'static str = "<div style=\"font-size:14px;color:#b0bec5;margin-bottom:6px\">";

pub const WATCH_STATS_OPEN: &'static str = "<div style=\"font-size:12px;color:#90a4ae;margin-bottom:12px\">";

pub const SPA_OPEN: &'static str = "<div id=\"bose-spa-content\" style=\"font-family:Arial,sans-serif;padding:16px\">";

pub const NEXT_BANNER_OPEN: &'static str = "<div style=\"background:#0070f3;color:#fff;padding:8px 12px;border-radius:4px;margin-bottom:16px;font-size:13px\">Bose — Next.js page: <b>";

pub const NEXT_BANNER_CLOSE: &'static str = "</b></div>";

pub const REMIX_BANNER: &'static str = "<div style=\"background:#8b5cf6;color:#fff;padding:8px 12px;border-radius:4px;margin-bottom:16px;font-size:13px\">Bose — Remix app</div>";

pub const NUXT_BANNER: &'static str = "<div style=\"background:#00DC82;color:#000;padding:8px 12px;border-radius:4px;margin-bottom:16px;font-size:13px\">Bose — Nuxt app</div>";

pub const PROPS_OPEN: &'static str = "<div style=\"font-size:13px;line-height:1.8\">";

pub const QUERY_OPEN: &'static str = "<pre style=\"font-size:12px\">";

/// The page data assigned to `name`, parsed.
pub open spec fn page_data(raw: Seq<char>, name: Seq<char>) -> Option<JsonView> {
    match js_var(raw, name) {
        Some(j) => parsed_ok(j),
        None => None,
    }
}

/// The document after the body is replaced by `html_of(data)`, for the page
/// data under `name`; `None` when there is no such data or no body.
pub open spec fn framework_step(
    d: DocView,
    raw: Seq<char>,
    name: Seq<char>,
    html_of: spec_fn(JsonView) -> Seq<char>,
) -> Option<DocView> {
    match page_data(raw, name) {
        Some(data) => match find_tag(d, "body"@) {
            Some(b) => Some(inject_spec(d, b, html_of(data))),
            None => None,
        },
        None => None,
    }
}

/// `ok(data)` holds for the page data under `name`, where a body exists.
pub open spec fn framework_safe(d: DocView, raw: Seq<char>, name: Seq<char>, ok: spec_fn(JsonView) -> bool) -> bool {
    match page_data(raw, name) {
        Some(data) => find_tag(d, "body"@) is Some ==> ok(data),
        None => true,
    }
}

pub open spec fn youtube_html(data: JsonView) -> Seq<char> {
    youtube_grid(youtube_videos(data), "YouTube"@)
}

/// A YouTube page: the video grid, when any video is found.
pub open spec fn youtube_step(d: DocView, raw: Seq<char>) -> Option<DocView> {
    match page_data(raw, "ytInitialData"@) {
        Some(data) => match find_tag(d, "body"@) {
            Some(b) => if youtube_videos(data).len() > 0 {
                Some(inject_spec(d, b, youtube_html(data)))
            } else {
                None
            },
            None => None,
        },
        None => None,
    }
}

pub open spec fn next_page(data: JsonView) -> Seq<char> {
    match as_str(get_key(data, "page"@)) {
        Some(p) => p,
        None => "/"@,
    }
}

/// A Next.js page: its route, then its page props as a table, or else its
/// query as pretty-printed JSON.
pub open spec fn next_html(data: JsonView) -> Seq<char> {
    SPA_OPEN@ + NEXT_BANNER_OPEN@ + html_esc(next_page(data)) + NEXT_BANNER_CLOSE@ + (match pointer_spec(
        data,
        seq!["props"@, "pageProps"@],
    ) {
        Some(p) => PROPS_OPEN@ + render(p, 0) + "</div>"@,
        None => match get_key(data, "query"@) {
            Some(q) => QUERY_OPEN@ + html_esc(json_pretty(q)) + "</pre>"@,
            None => Seq::empty(),
        },
    }) + "</div>"@
}

pub open spec fn next_ok(data: JsonView) -> bool {
    match pointer_spec(data, seq!["props"@, "pageProps"@]) {
        Some(p) => render_ok(p, 0),
        None => true,
    }
}

/// A Remix or Nuxt page: a banner, then all of its data as a table.
pub open spec fn data_html(banner: Seq<char>, data: JsonView) -> Seq<char> {
    SPA_OPEN@ + banner + PROPS_OPEN@ + render(data, 0) + "</div></div>"@
}

pub open spec fn next_step(d: DocView, raw: Seq<char>) -> Option<DocView> {
    framework_step(d, raw, "__NEXT_DATA__"@, |x: JsonView| next_html(x))
}

pub open spec fn remix_step(d: DocView, raw: Seq<char>) -> Option<DocView> {
    framework_step(d, raw, "__remixContext"@, |x: JsonView| data_html(REMIX_BANNER@, x))
}

pub open spec fn nuxt_step(d: DocView, raw: Seq<char>) -> Option<DocView> {
    framework_step(d, raw, "window.__NUXT__"@, |x: JsonView| data_html(NUXT_BANNER@, x))
}

/// The first framework whose data is found renders the page: YouTube, then
/// Next.js, Remix and Nuxt.
pub open spec fn hydrate_spec(d: DocView, raw: Seq<char>) -> Option<DocView> {
    match youtube_step(d, raw) {
        Some(x) => Some(x),
        None => match next_step(d, raw) {
            Some(x) => Some(x),
            None => match remix_step(d, raw) {
                Some(x) => Some(x),
                None => nuxt_step(d, raw),
            },
        },
    }
}

/// No framework that gets to render the page would cut a string inside a
/// character.
pub open spec fn hydrate_safe(d: DocView, raw: Seq<char>) -> bool {
    youtube_step(d, raw) is Some || (framework_safe(d, raw, "__NEXT_DATA__"@, |x: JsonView| next_ok(x)) && (
    next_step(d, raw) is Some || (framework_safe(d, raw, "__remixContext"@, |x: JsonView| render_ok(x, 0)) && (
    remix_step(d, raw) is Some || framework_safe(d, raw, "window.__NUXT__"@, |x: JsonView| render_ok(x, 0))))))
}

fn page_data_exec(raw: &str, name: &str) -> (r: Option<JsonValue>)
    ensures
        match r {
            Some(v) => page_data(raw@, name@) == Some(v@),
            None => page_data(raw@, name@) is None,
        },
{
    match extract_js_var(raw, name) {
        Some(j) => match crate::browser::json::parse_json(j.as_str()) {
            Ok(v) => Some(v),
            Err(_) => None,
        },
        None => None,
    }
}

fn try_youtube(doc: &mut Document, raw_html: &str) -> (r: bool)
    requires
        doc_wf(old(doc)@),
    ensures
        doc_wf(final(doc)@),
        match youtube_step(old(doc)@, raw_html@) {
            Some(d2) => r && final(doc)@ == d2,
            None => !r && final(doc)@ == old(doc)@,
        },
{
    proof {
        reveal_strlit("ytInitialData");
    }
    let data = match page_data_exec(raw_html, "ytInitialData") {
        Some(d) => d,
        None => return false,
    };
    let body = match doc.find_element("body") {
        Some(b) => b,
        None => return false,
    };
    let videos = collect_youtube_videos(&data);
    if videos.len() == 0 {
        return false;
    }
    let html = build_youtube_html(videos.as_slice(), "YouTube");
    inject_html_into_body(doc, body, html.as_str());
    true
}

fn try_nextjs(doc: &mut Document, raw_html: &str) -> (r: bool)
    requires
        doc_wf(old(doc)@),
        framework_safe(old(doc)@, raw_html@, "__NEXT_DATA__"@, |x: JsonView| next_ok(x)),
    ensures
        doc_wf(final(doc)@),
        match next_step(old(doc)@, raw_html@) {
            Some(d2) => r && final(doc)@ == d2,
            None => !r && final(doc)@ == old(doc)@,
        },
{
    let data = match page_data_exec(raw_html, "__NEXT_DATA__") {
        Some(d) => d,
        None => return false,
    };
    let body = match doc.find_element("body") {
        Some(b) => b,
        None => return false,
    };
    let page = match data.get_key("page") {
        Some(p) => match p.as_str() {
            Some(s) => s,
            None => "/",
        },
        None => "/",
    };
    let mut html = String::new();
    html.append(SPA_OPEN);
    html.append(NEXT_BANNER_OPEN);
    let e = html_escape(page);
    html.append(e.as_str());
    html.append(NEXT_BANNER_CLOSE);
    let ghost h1 = html@;
    match data.pointer(toks2("props", "pageProps").as_slice()) {
        Some(props) => {
            html.append(PROPS_OPEN);
            render_json_as_html(props, &mut html, 0);
            html.append("</div>");
        },
        None => match data.get_key("query") {
            Some(q) => {
                html.append(QUERY_OPEN);
                let p = crate::browser::json::pretty_json(q);
                let e2 = html_escape(p.as_str());
                html.append(e2.as_str());
                html.append("</pre>");
            },
            None => {},
        },
    }
    html.append("</div>");
    assert(html@ =~= next_html(data@));
    inject_html_into_body(doc, body, html.as_str());
    true
}

fn try_data_page(doc: &mut Document, raw_html: &str, name: &str, banner: &str) -> (r: bool)
    requires
        doc_wf(old(doc)@),
        framework_safe(old(doc)@, raw_html@, name@, |x: JsonView| render_ok(x, 0)),
    ensures
        doc_wf(final(doc)@),
        match framework_step(old(doc)@, raw_html@, name@, |x: JsonView| data_html(banner@, x)) {
            Some(d2) => r && final(doc)@ == d2,
            None => !r && final(doc)@ == old(doc)@,
        },
{
    let data = match page_data_exec(raw_html, name) {
        Some(d) => d,
        None => return false,
    };
    let body = match doc.find_element("body") {
        Some(b) => b,
        None => return false,
    };
    let mut html = String::new();
    html.append(SPA_OPEN);
    html.append(banner);
    html.append(PROPS_OPEN);
    render_json_as_html(&data, &mut html, 0);
    html.append("</div></div>");
    assert(html@ =~= data_html(banner@, data@));
    inject_html_into_body(doc, body, html.as_str());
    true
}

/// Renders the page from the first framework data found in `raw_html`; see
/// `hydrate_spec`. Whether anything was put into the body is returned.
pub fn hydrate_from_scripts(doc: &mut Document, raw_html: &str) -> (r: bool)
    requires
        doc_wf(old(doc)@),
        hydrate_safe(old(doc)@, raw_html@),
    ensures
        doc_wf(final(doc)@),
        match hydrate_spec(old(doc)@, raw_html@) {
            Some(d2) => r && final(doc)@ == d2,
            None => !r && final(doc)@ == old(doc)@,
        },
{
    if try_youtube(doc, raw_html) {
        return true;
    }
    if try_nextjs(doc, raw_html) {
        return true;
    }
    if try_data_page(doc, raw_html, "__remixContext", REMIX_BANNER) {
        return true;
    }
    try_data_page(doc, raw_html, "window.__NUXT__", NUXT_BANNER)
}

fn data_safe(doc: &Document, raw_html: &str, name: &str, props_only: bool) -> (r: bool)
    ensures
        props_only ==> r == framework_safe(doc@, raw_html@, name@, |x: JsonView| next_ok(x)),
        !props_only ==> r == framework_safe(doc@, raw_html@, name@, |x: JsonView| render_ok(x, 0)),
{
    let data = match page_data_exec(raw_html, name) {
        Some(d) => d,
        None => return true,
    };
    if doc.find_element("body").is_none() {
        return true;
    }
    if props_only {
        match data.pointer(toks2("props", "pageProps").as_slice()) {
            Some(p) => render_ok_exec(p, 0),
            None => true,
        }
    } else {
        render_ok_exec(&data, 0)
    }
}

/// `hydrate_from_scripts` where it can run: `None`, with the document left
/// as it is, when the framework that would render the page holds a string
/// that rendering would cut inside a character.
pub fn hydrate_from_scripts_checked(doc: &mut Document, raw_html: &str) -> (r: Option<bool>)
    requires
        doc_wf(old(doc)@),
    ensures
        doc_wf(final(doc)@),
        hydrate_safe(old(doc)@, raw_html@) ==> (r matches Some(b) && match hydrate_spec(old(doc)@, raw_html@) {
            Some(d2) => b && final(doc)@ == d2,
            None => !b && final(doc)@ == old(doc)@,
        }),
        !hydrate_safe(old(doc)@, raw_html@) ==> r is None && final(doc)@ == old(doc)@,
{
    proof {
        reveal_strlit("ytInitialData");
    }
    let yt = match page_data_exec(raw_html, "ytInitialData") {
        Some(data) => doc.find_element("body").is_some() && collect_youtube_videos(&data).len() > 0,
        None => false,
    };
    let safe = yt || (data_safe(doc, raw_html, "__NEXT_DATA__", true) && (next_applies(doc, raw_html) || (data_safe(
        doc,
        raw_html,
        "__remixContext",
        false,
    ) && (data_applies(doc, raw_html, "__remixContext") || data_safe(doc, raw_html, "window.__NUXT__", false)))));
    if !safe {
        return None;
    }
    Some(hydrate_from_scripts(doc, raw_html))
}

fn next_applies(doc: &Document, raw_html: &str) -> (r: bool)
    ensures
        r == next_step(doc@, raw_html@) is Some,
{
    page_data_exec(raw_html, "__NEXT_DATA__").is_some() && doc.find_element("body").is_some()
}

fn data_applies(doc: &Document, raw_html: &str, name: &str) -> (r: bool)
    ensures
        r == framework_step(doc@, raw_html@, name@, |x: JsonView| data_html(REMIX_BANNER@, x)) is Some,
{
    page_data_exec(raw_html, name).is_some() && doc.find_element("body").is_some()
}

// ── YouTube watch pages ─────────────────────────────────────────────────────

/// The value of the first query pair named `v`, or nothing.
pub open spec fn first_v(q: Seq<(Seq<char>, Seq<char>)>) -> Seq<char>
    decreases q.len(),
{
    if q.len() == 0 {
        Seq::empty()
    } else if q[0].0 == "v"@ {
        q[0].1
    } else {
        first_v(q.drop_first())
    }
}

/// The id of the video a YouTube URL shows: the first path segment on
/// `youtu.be`, the `v` parameter of `/watch`, otherwise nothing; `None` for a
/// host that is not YouTube's.
pub open spec fn watch_video_id(u: crate::urls::ParsedUrlView) -> Option<Seq<char>> {
    match u.host {
        None => None,
        Some(host) => if !(ends_with(host, "youtube.com"@) || ends_with(host, "youtu.be"@)) {
            None
        } else if ends_with(host, "youtu.be"@) {
            Some(match u.segments {
                Some(segs) => if segs.len() > 0 {
                    segs[0]
                } else {
                    Seq::empty()
                },
                None => Seq::empty(),
            })
        } else if u.path == "/watch"@ {
            Some(first_v(u.query))
        } else {
            Some(Seq::empty())
        },
    }
}

/// A string field of the player's `videoDetails` that is not blank.
pub open spec fn detail(v: JsonView, key: Seq<char>) -> Option<Seq<char>> {
    match as_str(pointer_spec(v, seq!["videoDetails"@, key])) {
        Some(t) => if crate::text::trim(t).len() > 0 {
            Some(t)
        } else {
            None
        },
        None => None,
    }
}

/// Title, channel, views and length shown for the video, from the player
/// data of the page where there is any.
pub open spec fn watch_details(raw: Seq<char>) -> (Seq<char>, Seq<char>, Seq<char>, Seq<char>) {
    let none = ("YouTube Video"@, Seq::<char>::empty(), Seq::<char>::empty(), Seq::<char>::empty());
    match page_data(raw, "ytInitialPlayerResponse"@) {
        Some(v) => (
            match detail(v, "title"@) {
                Some(t) => t,
                None => none.0,
            },
            match detail(v, "author"@) {
                Some(c) => c,
                None => Seq::empty(),
            },
            match detail(v, "viewCount"@) {
                Some(c) => c + " views"@,
                None => Seq::empty(),
            },
            match detail(v, "lengthSeconds"@) {
                Some(c) => c + " sec"@,
                None => Seq::empty(),
            },
        ),
        None => none,
    }
}

pub open spec fn related_url(title: Seq<char>) -> Seq<char> {
    "https://www.youtube.com/results?search_query="@ + crate::urls::form_urlencoded(title)
}

/// The page shown in place of a YouTube watch page.
pub open spec fn watch_html(id: Seq<char>, det: (Seq<char>, Seq<char>, Seq<char>, Seq<char>)) -> Seq<char> {
    let (title, channel, views, length) = det;
    WATCH_OPEN@ + WATCH_NOTICE_OPEN@ + WATCH_NOTICE_MODE@ + WATCH_NOTICE_HINT@ + "</div>"@ + WATCH_GRID_OPEN@
        + WATCH_IMG_OPEN@ + thumb_url(id) + WATCH_IMG_CLOSE@ + "<div>"@ + WATCH_TITLE_OPEN@ + html_esc(title)
        + WATCH_DIV_CLOSE@ + (if channel.len() > 0 {
        WATCH_CHANNEL_OPEN@ + html_esc(channel) + WATCH_DIV_CLOSE@
    } else {
        Seq::empty()
    }) + (if views.len() > 0 || length.len() > 0 {
        WATCH_STATS_OPEN@ + html_esc(views) + " "@ + html_esc(length) + WATCH_DIV_CLOSE@
    } else {
        Seq::empty()
    }) + LINKS_OPEN@ + watch_url(id) + LINKS_AFTER_WATCH@ + related_url(title) + LINKS_CLOSE@
        + "</div></div></div>"@
}

/// The document after the watch-page fallback, or `None` when it does not
/// apply: the URL does not parse or is not YouTube's, no video id is found,
/// or there is no body.
pub open spec fn watch_fallback(d: DocView, raw: Seq<char>, url: Seq<char>) -> Option<DocView> {
    match url_parse(url) {
        None => None,
        Some(u) => match watch_video_id(u) {
            None => None,
            Some(id) => if id.len() == 0 {
                None
            } else {
                match find_tag(d, "body"@) {
                    None => None,
                    Some(b) => Some(inject_spec(d, b, watch_html(id, watch_details(raw)))),
                }
            },
        },
    }
}

fn first_v_exec(q: &Vec<(String, String)>) -> (r: String)
    ensures
        r@ == first_v(crate::urls::pairs_view(q@)),
{
    let ghost qv = crate::urls::pairs_view(q@);
    let mut i: usize = 0;
    assert(qv.skip(0) =~= qv);
    while i < q.len()
        invariant
            i <= q@.len(),
            qv == crate::urls::pairs_view(q@),
            first_v(qv) == first_v(qv.skip(i as int)),
        decreases q@.len() - i,
    {
        assert(qv.skip(i as int)[0] == (q@[i as int].0@, q@[i as int].1@));
        if str_eq(q[i].0.as_str(), "v") {
            return q[i].1.clone();
        }
        assert(qv.skip(i as int).drop_first() =~= qv.skip(i + 1));
        i = i + 1;
    }
    String::new()
}

fn detail_exec(v: &JsonValue, key: &'static str) -> (r: Option<String>)
    ensures
        match r {
            Some(t) => detail(v@, key@) == Some(t@),
            None => detail(v@, key@) is None,
        },
{
    match v.pointer(toks2("videoDetails", key).as_slice()) {
        Some(x) => match x.as_str() {
            Some(t) => {
                let tt = crate::text::trim_str(t);
                if tt.as_str().is_empty() {
                    None
                } else {
                    Some(t.to_owned())
                }
            },
            None => None,
        },
        None => None,
    }
}

fn watch_details_exec(raw: &str) -> (r: (String, String, String, String))
    ensures
        (r.0@, r.1@, r.2@, r.3@) == watch_details(raw@),
{
    let mut title = "YouTube Video".to_owned();
    let mut channel = String::new();
    let mut views = String::new();
    let mut length = String::new();
    match page_data_exec(raw, "ytInitialPlayerResponse") {
        Some(v) => {
            match detail_exec(&v, "title") {
                Some(t) => {
                    title = t;
                },
                None => {},
            }
            match detail_exec(&v, "author") {
                Some(c) => {
                    channel = c;
                },
                None => {},
            }
            match detail_exec(&v, "viewCount") {
                Some(c) => {
                    views = c;
                    views.append(" views");
                },
                None => {},
            }
            match detail_exec(&v, "lengthSeconds") {
                Some(c) => {
                    length = c;
                    length.append(" sec");
                },
                None => {},
            }
        },
        None => {},
    }
    (title, channel, views, length)
}

fn watch_html_exec(id: &str, det: &(String, String, String, String)) -> (r: String)
    ensures
        r@ == watch_html(id@, (det.0@, det.1@, det.2@, det.3@)),
{
    let mut html = String::new();
    html.append(WATCH_OPEN);
    html.append(WATCH_NOTICE_OPEN);
    html.append(WATCH_NOTICE_MODE);
    html.append(WATCH_NOTICE_HINT);
    html.append("</div>");
    html.append(WATCH_GRID_OPEN);
    html.append(WATCH_IMG_OPEN);
    html.append("https://i.ytimg.com/vi/");
    html.append(id);
    html.append("/hqdefault.jpg");
    html.append(WATCH_IMG_CLOSE);
    html.append("<div>");
    html.append(WATCH_TITLE_OPEN);
    let t = html_escape(det.0.as_str());
    html.append(t.as_str());
    html.append(WATCH_DIV_CLOSE);
    if !det.1.as_str().is_empty() {
        html.append(WATCH_CHANNEL_OPEN);
        let c = html_escape(det.1.as_str());
        html.append(c.as_str());
        html.append(WATCH_DIV_CLOSE);
    }
    if !det.2.as_str().is_empty() || !det.3.as_str().is_empty() {
        html.append(WATCH_STATS_OPEN);
        let v = html_escape(det.2.as_str());
        html.append(v.as_str());
        html.append(" ");
        let l = html_escape(det.3.as_str());
        html.append(l.as_str());
        html.append(WATCH_DIV_CLOSE);
    }
    html.append(LINKS_OPEN);
    html.append("https://www.youtube.com/watch?v=");
    html.append(id);
    html.append(LINKS_AFTER_WATCH);
    html.append("https://www.youtube.com/results?search_query=");
    let q = crate::urls::form_urlencode(det.0.as_str());
    html.append(q.as_str());
    html.append(LINKS_CLOSE);
    html.append("</div></div></div>");
    assert(html@ =~= watch_html(id@, (det.0@, det.1@, det.2@, det.3@)));
    html
}

/// Replaces a YouTube watch page, whose player the engine cannot run, with a
/// page showing the video's thumbnail, title, channel and statistics and
/// links to the watch page and to related videos; see `watch_fallback`.
/// Whether the page was replaced is returned.
pub fn rewrite_youtube_watch_fallback(doc: &mut Document, raw_html: &str, url: &str) -> (r: bool)
    requires
        doc_wf(old(doc)@),
    ensures
        doc_wf(final(doc)@),
        match watch_fallback(old(doc)@, raw_html@, url@) {
            Some(d2) => r && final(doc)@ == d2,
            None => !r && final(doc)@ == old(doc)@,
        },
{
    let parsed = match parse_url(url) {
        Ok(u) => u,
        Err(_) => return false,
    };
    let host = match &parsed.host {
        Some(h) => h.as_str(),
        None => return false,
    };
    let on_short = str_ends_with(host, "youtu.be");
    if !(str_ends_with(host, "youtube.com") || on_short) {
        return false;
    }
    let video_id = if on_short {
        match &parsed.segments {
            Some(segs) => if segs.len() > 0 {
                segs[0].clone()
            } else {
                String::new()
            },
            None => String::new(),
        }
    } else if str_eq(parsed.path.as_str(), "/watch") {
        first_v_exec(&parsed.query)
    } else {
        String::new()
    };
    assert(watch_video_id(parsed@) == Some(video_id@));
    if video_id.as_str().is_empty() {
        return false;
    }
    let body = match doc.find_element("body") {
        Some(b) => b,
        None => return false,
    };
    let det = watch_details_exec(raw_html);
    let html = watch_html_exec(video_id.as_str(), &det);
    inject_html_into_body(doc, body, html.as_str());
    true
}

} // verus!

//! Lynx-style rendering of a document into styled lines with numbered links,
//! shared by the terminal and canvas front ends.
use vstd::prelude::*;
use vstd::string::StringExecFns;
use crate::dom::node::{DataView, Node, NodeData, NodeView, attr_of, nodes_view, tag_of};
use crate::text::{
    chars_of, decimal, decimal_string, is_ws, is_ws_exec, join, join_chars, split_words, starts_with,
    str_eq, str_starts_with, string_from, trim, trim_str, words,
};
use crate::urls::{join_url, url_join};
use crate::dom::document::{inline_scripts, scripts_in};
use crate::dom::tree::pre_list;

verus! {

/// A span of styled text in the rendered view.
#[derive(Debug)]
pub struct RichSpan {
    pub text: String,
    pub link_idx: Option<usize>,
    pub heading: bool,
}

pub struct SpanView {
    pub text: Seq<char>,
    pub link_idx: Option<usize>,
    pub heading: bool,
}

impl View for RichSpan {
    type V = SpanView;

    open spec fn view(&self) -> SpanView {
        SpanView { text: self.text@, link_idx: self.link_idx, heading: self.heading }
    }
}

impl Clone for RichSpan {
    fn clone(&self) -> (r: Self)
        ensures
            r@ == self@,
    {
        RichSpan { text: self.text.clone(), link_idx: self.link_idx, heading: self.heading }
    }
}

/// A rendered line is a sequence of styled spans.
pub type RichLine = Vec<RichSpan>;

/// A hyperlink found during the walk.
#[derive(Debug)]
pub struct Link {
    pub text: String,
    pub href: String,
}

pub struct LinkView {
    pub text: Seq<char>,
    pub href: Seq<char>,
}

impl View for Link {
    type V = LinkView;

    open spec fn view(&self) -> LinkView {
        LinkView { text: self.text@, href: self.href@ }
    }
}

impl Clone for Link {
    fn clone(&self) -> (r: Self)
        ensures
            r@ == self@,
    {
        Link { text: self.text.clone(), href: self.href.clone() }
    }
}

/// Everything one walk of a document produces.
pub struct WalkResult {
    pub lines: Vec<RichLine>,
    pub links: Vec<Link>,
    pub title: String,
    pub script_count: usize,
}

pub open spec fn line_view(l: Seq<RichSpan>) -> Seq<SpanView> {
    l.map_values(|s: RichSpan| s@)
}

pub open spec fn lines_view(v: Seq<RichLine>) -> Seq<Seq<SpanView>> {
    v.map_values(|l: RichLine| line_view(l@))
}

pub open spec fn links_view(v: Seq<Link>) -> Seq<LinkView> {
    v.map_values(|l: Link| l@)
}

/// The walker's state between steps.
pub struct WState {
    pub links: Seq<LinkView>,
    pub lines: Seq<Seq<SpanView>>,
    pub current: Seq<SpanView>,
    pub in_heading: bool,
    pub in_a: Option<usize>,
}

// ── Text helpers ─────────────────────────────────────────────────────────────

/// Newlines, carriage returns and tabs read as spaces; runs of spaces become
/// one space and leading spaces go. Returns the text and whether it ends in a
/// space (or is empty).
pub open spec fn squeeze_state(s: Seq<char>) -> (Seq<char>, bool)
    decreases s.len(),
{
    if s.len() == 0 {
        (Seq::empty(), true)
    } else {
        let (o, p) = squeeze_state(s.drop_last());
        let c = s.last();
        let c2 = if c == '\n' || c == '\r' || c == '\t' { ' ' } else { c };
        if c2 == ' ' {
            if !p {
                (o.push(' '), true)
            } else {
                (o, true)
            }
        } else {
            (o.push(c2), false)
        }
    }
}

pub open spec fn squeeze(s: Seq<char>) -> Seq<char> {
    squeeze_state(s).0
}

pub open spec fn push_text_spec(st: WState, text: Seq<char>) -> WState {
    let out = squeeze(text);
    if out.len() == 0 {
        st
    } else {
        WState {
            current: st.current.push(SpanView { text: out, link_idx: st.in_a, heading: st.in_heading }),
            ..st
        }
    }
}

pub open spec fn has_content(cur: Seq<SpanView>) -> bool {
    exists|k: int| 0 <= k < cur.len() && #[trigger] trim(cur[k].text).len() > 0
}

pub open spec fn flush_spec(st: WState) -> WState {
    if has_content(st.current) {
        WState { lines: st.lines.push(st.current), current: Seq::empty(), ..st }
    } else {
        WState { current: Seq::empty(), ..st }
    }
}

pub open spec fn blank_spec(st: WState) -> WState {
    let s1 = flush_spec(st);
    if s1.lines.len() > 0 && s1.lines.last().len() > 0 {
        WState { lines: s1.lines.push(Seq::empty()), ..s1 }
    } else {
        s1
    }
}

pub open spec fn is_skipped(t: Seq<char>) -> bool {
    t == "script"@ || t == "style"@ || t == "noscript"@ || t == "svg"@ || t == "head"@ || t == "canvas"@
        || t == "iframe"@ || t == "meta"@ || t == "link"@ || t == "template"@
}

pub open spec fn is_heading(t: Seq<char>) -> bool {
    t == "h1"@ || t == "h2"@ || t == "h3"@ || t == "h4"@ || t == "h5"@ || t == "h6"@
}

pub open spec fn is_block(t: Seq<char>) -> bool {
    ||| t == "p"@ || t == "div"@ || t == "section"@ || t == "article"@ || t == "main"@ || t == "aside"@
    ||| t == "header"@ || t == "footer"@ || t == "nav"@ || t == "ul"@ || t == "ol"@ || t == "dl"@
    ||| t == "li"@ || t == "dt"@ || t == "dd"@ || t == "blockquote"@ || t == "pre"@ || t == "figure"@
    ||| t == "form"@ || t == "fieldset"@ || t == "table"@ || t == "thead"@ || t == "tbody"@
    ||| t == "tfoot"@ || t == "tr"@ || t == "th"@ || t == "td"@ || t == "br"@ || t == "hr"@
}

/// `resolve_url(base, href)`: absolute http(s) links as they are,
/// protocol-relative ones under https, others joined to `base` when possible.
pub open spec fn resolve_url_spec(base: Seq<char>, href: Seq<char>) -> Seq<char> {
    if starts_with(href, "http://"@) || starts_with(href, "https://"@) {
        href
    } else if starts_with(href, "//"@) {
        "https:"@ + href
    } else {
        match url_join(base, href) {
            Some(t) => t,
            None => href,
        }
    }
}

/// Plain text of `ids`: each text node followed by a space, `<script>` and
/// `<style>` left out.
pub open spec fn ct_list(nodes: Seq<NodeView>, ids: Seq<usize>, f: nat) -> Seq<char>
    decreases f, ids.len() + 1,
{
    if ids.len() == 0 {
        Seq::empty()
    } else {
        ct_piece(nodes, ids[0], f) + ct_list(nodes, ids.drop_first(), f)
    }
}

pub open spec fn ct_piece(nodes: Seq<NodeView>, id: usize, f: nat) -> Seq<char>
    decreases f, 0nat,
{
    if id >= nodes.len() {
        Seq::empty()
    } else {
        let n = nodes[id as int];
        match n.data {
            DataView::Text { content } => content + " "@,
            DataView::Element { tag_name, .. } => if tag_name == "script"@ || tag_name == "style"@ || f == 0 {
                Seq::empty()
            } else {
                ct_list(nodes, n.children, (f - 1) as nat)
            },
            _ => if f == 0 {
                Seq::empty()
            } else {
                ct_list(nodes, n.children, (f - 1) as nat)
            },
        }
    }
}

pub open spec fn link_label(idx: nat) -> Seq<char> {
    "["@ + decimal(idx + 1) + "]"@
}

pub open spec fn is_followed(href: Seq<char>) -> bool {
    href.len() > 0 && !starts_with(href, "#"@) && !starts_with(href, "javascript"@)
}

/// One step of the walk: node `id`, children at most `f` levels down.
pub open spec fn walk_spec(nodes: Seq<NodeView>, base: Seq<char>, st: WState, id: usize, f: nat) -> WState
    decreases f, 0nat,
{
    if id >= nodes.len() {
        st
    } else {
        let n = nodes[id as int];
        match n.data {
            DataView::Element { tag_name, .. } => {
                let tag = tag_name;
                if is_skipped(tag) {
                    st
                } else if is_heading(tag) {
                    let s1 = WState { in_heading: true, ..blank_spec(st) };
                    let s2 = if f == 0 { s1 } else { walk_list(nodes, base, s1, n.children, (f - 1) as nat) };
                    let s4 = flush_spec(WState { in_heading: false, ..s2 });
                    WState { lines: s4.lines.push(Seq::empty()), ..s4 }
                } else if tag == "a"@ {
                    match attr_of(n.data, "href"@) {
                        Some(href) => if is_followed(href) {
                            let full = resolve_url_spec(base, href);
                            let lt = join(words(ct_list(nodes, n.children, nodes.len())), " "@);
                            let text = if lt.len() == 0 { href } else { lt };
                            let idx = match href_pos(st.links, full) {
                                Some(k) => k,
                                None => st.links.len() as int,
                            };
                            let s1 = WState {
                                links: if href_pos(st.links, full) is Some {
                                    st.links
                                } else {
                                    st.links.push(LinkView { text, href: full })
                                },
                                in_a: Some(idx as usize),
                                current: st.current.push(SpanView { text: link_label(idx as nat), link_idx: Some(idx as usize), heading: false }),
                                ..st
                            };
                            let s2 = if f == 0 { s1 } else { walk_list(nodes, base, s1, n.children, (f - 1) as nat) };
                            WState { in_a: st.in_a, ..s2 }
                        } else {
                            if f == 0 { st } else { walk_list(nodes, base, st, n.children, (f - 1) as nat) }
                        },
                        None => if f == 0 { st } else { walk_list(nodes, base, st, n.children, (f - 1) as nat) },
                    }
                } else if tag == "img"@ {
                    let alt = trim(match attr_of(n.data, "alt"@) {
                        Some(a) => a,
                        None => "image"@,
                    });
                    if alt.len() > 0 {
                        WState { current: st.current.push(SpanView { text: "["@ + alt + "]"@, link_idx: None, heading: false }), ..st }
                    } else {
                        st
                    }
                } else if is_block(tag) {
                    if tag == "br"@ || tag == "hr"@ {
                        flush_spec(st)
                    } else {
                        let s1 = flush_spec(st);
                        flush_spec(if f == 0 { s1 } else { walk_list(nodes, base, s1, n.children, (f - 1) as nat) })
                    }
                } else {
                    if f == 0 { st } else { walk_list(nodes, base, st, n.children, (f - 1) as nat) }
                }
            },
            DataView::Text { content } => push_text_spec(st, content),
            _ => if f == 0 { st } else { walk_list(nodes, base, st, n.children, (f - 1) as nat) },
        }
    }
}

pub open spec fn walk_list(nodes: Seq<NodeView>, base: Seq<char>, st: WState, ids: Seq<usize>, f: nat) -> WState
    decreases f, ids.len() + 1,
{
    if ids.len() == 0 {
        st
    } else {
        walk_list(nodes, base, walk_spec(nodes, base, st, ids[0], f), ids.drop_first(), f)
    }
}

/// The position of the first link to `href`.
pub open spec fn href_pos(ls: Seq<LinkView>, href: Seq<char>) -> Option<int>
    decreases ls.len(),
{
    if ls.len() == 0 {
        None
    } else {
        match href_pos(ls.drop_last(), href) {
            Some(k) => Some(k),
            None => if ls.last().href == href {
                Some(ls.len() - 1)
            } else {
                None
            },
        }
    }
}

/// The inline scripts of the document; see `inline_scripts`.
pub open spec fn inline_script_count(nodes: Seq<NodeView>) -> nat {
    scripts_in(nodes, pre_list(nodes, seq![0usize], nodes.len(), true)).len()
}

/// The first arena slot holding a `<title>` element.
pub open spec fn title_slot(nodes: Seq<NodeView>, i: int) -> Option<int>
    decreases nodes.len() - i,
{
    if i < 0 || i >= nodes.len() {
        None
    } else if tag_of(nodes[i].data) == Some("title"@) {
        Some(i)
    } else {
        title_slot(nodes, i + 1)
    }
}

pub open spec fn title_spec(nodes: Seq<NodeView>, base: Seq<char>) -> Seq<char> {
    let raw = match title_slot(nodes, 0) {
        Some(i) => ct_list(nodes, nodes[i].children, nodes.len()),
        None => Seq::empty(),
    };
    if trim(raw).len() == 0 {
        base
    } else {
        trim(raw)
    }
}

pub open spec fn ref_line(ls: Seq<LinkView>, i: int) -> Seq<SpanView> {
    seq![
        SpanView { text: "   ["@ + decimal((i + 1) as nat) + "] "@, link_idx: None, heading: false },
        SpanView { text: ls[i].href, link_idx: Some(i as usize), heading: false },
    ]
}

/// The rendered lines followed, when there are links, by a blank line, a
/// "References" heading, a blank line and one numbered line per link.
pub open spec fn with_references(lines: Seq<Seq<SpanView>>, ls: Seq<LinkView>) -> Seq<Seq<SpanView>> {
    if ls.len() == 0 {
        lines
    } else {
        lines + seq![
            Seq::empty(),
            seq![SpanView { text: "References"@, link_idx: None, heading: true }],
            Seq::empty(),
        ] + Seq::new(ls.len(), |i: int| ref_line(ls, i))
    }
}

pub open spec fn start_state() -> WState {
    WState { links: Seq::empty(), lines: Seq::empty(), current: Seq::empty(), in_heading: false, in_a: None }
}

pub open spec fn walked(nodes: Seq<NodeView>, start: usize, base: Seq<char>) -> WState {
    flush_spec(walk_spec(nodes, base, start_state(), start, nodes.len()))
}


/// A link index that, when present, is below `n`.
pub open spec fn idx_ok(o: Option<usize>, n: nat) -> bool {
    o matches Some(i) ==> i < n
}

pub open spec fn spans_ok(l: Seq<SpanView>, n: nat) -> bool {
    forall|k: int| 0 <= k < l.len() ==> idx_ok(#[trigger] l[k].link_idx, n)
}

pub open spec fn lines_ok(ls: Seq<Seq<SpanView>>, n: nat) -> bool {
    forall|k: int| 0 <= k < ls.len() ==> spans_ok(#[trigger] ls[k], n)
}

/// No two links of `ls` go to the same target.
pub open spec fn distinct_hrefs(ls: Seq<LinkView>) -> bool {
    forall|i: int, j: int| 0 <= i < j < ls.len() ==> #[trigger] ls[i].href != #[trigger] ls[j].href
}

/// The link table holds each target once, and every link index in the
/// lines, the current line and the open link points into it.
pub open spec fn wstate_ok(st: WState) -> bool {
    &&& distinct_hrefs(st.links)
    &&& lines_ok(st.lines, st.links.len())
    &&& spans_ok(st.current, st.links.len())
    &&& idx_ok(st.in_a, st.links.len())
}

proof fn lemma_flush_ok(st: WState)
    requires
        wstate_ok(st),
    ensures
        wstate_ok(flush_spec(st)),
        flush_spec(st).links == st.links,
        flush_spec(st).in_a == st.in_a,
{
    if has_content(st.current) {
        let l2 = st.lines.push(st.current);
        assert forall|k: int| 0 <= k < l2.len() implies spans_ok(#[trigger] l2[k], st.links.len()) by {
            if k < st.lines.len() {
                assert(l2[k] == st.lines[k]);
            }
        }
    }
}

proof fn lemma_blank_ok(st: WState)
    requires
        wstate_ok(st),
    ensures
        wstate_ok(blank_spec(st)),
        blank_spec(st).links == st.links,
        blank_spec(st).in_a == st.in_a,
{
    lemma_flush_ok(st);
    let s1 = flush_spec(st);
    if s1.lines.len() > 0 && s1.lines.last().len() > 0 {
        let l2 = s1.lines.push(Seq::<SpanView>::empty());
        assert forall|k: int| 0 <= k < l2.len() implies spans_ok(#[trigger] l2[k], st.links.len()) by {
            if k < s1.lines.len() {
                assert(l2[k] == s1.lines[k]);
            }
        }
    }
}

proof fn lemma_grow_ok(st: WState, m: nat)
    requires
        lines_ok(st.lines, st.links.len()),
        spans_ok(st.current, st.links.len()),
        st.links.len() <= m,
    ensures
        lines_ok(st.lines, m),
        spans_ok(st.current, m),
{
    assert forall|k: int| 0 <= k < st.lines.len() implies spans_ok(#[trigger] st.lines[k], m) by {
        assert(spans_ok(st.lines[k], st.links.len()));
    }
}

proof fn lemma_walk_ok(nodes: Seq<NodeView>, base: Seq<char>, st: WState, id: usize, f: nat)
    requires
        wstate_ok(st),
    ensures
        wstate_ok(walk_spec(nodes, base, st, id, f)),
        walk_spec(nodes, base, st, id, f).links.len() >= st.links.len(),
        forall|i: int| 0 <= i < st.links.len() ==> #[trigger] walk_spec(nodes, base, st, id, f).links[i] == st.links[i],
        walk_spec(nodes, base, st, id, f).in_a == st.in_a,
    decreases f, 0nat,
{
    if id < nodes.len() {
        let n = nodes[id as int];
        match n.data {
            DataView::Element { tag_name, .. } => {
                let tag = tag_name;
                if is_skipped(tag) {
                } else if is_heading(tag) {
                    lemma_blank_ok(st);
                    let s1 = WState { in_heading: true, ..blank_spec(st) };
                    if f > 0 {
                        lemma_walk_list_ok(nodes, base, s1, n.children, (f - 1) as nat);
                    }
                    let s2 = if f == 0 { s1 } else { walk_list(nodes, base, s1, n.children, (f - 1) as nat) };
                    let s3 = WState { in_heading: false, ..s2 };
                    lemma_flush_ok(s3);
                    let s4 = flush_spec(s3);
                    let l2 = s4.lines.push(Seq::<SpanView>::empty());
                    assert forall|k: int| 0 <= k < l2.len() implies spans_ok(#[trigger] l2[k], s4.links.len()) by {
                        if k < s4.lines.len() {
                            assert(l2[k] == s4.lines[k]);
                        }
                    }
                } else if tag == "a"@ {
                    match attr_of(n.data, "href"@) {
                        Some(href) => if is_followed(href) {
                            let full = resolve_url_spec(base, href);
                            let lt = join(words(ct_list(nodes, n.children, nodes.len())), " "@);
                            let text = if lt.len() == 0 { href } else { lt };
                            lemma_href_pos(st.links, full);
                            let idx = match href_pos(st.links, full) {
                                Some(k) => k,
                                None => st.links.len() as int,
                            };
                            let links2 = if href_pos(st.links, full) is Some {
                                st.links
                            } else {
                                st.links.push(LinkView { text, href: full })
                            };
                            assert(distinct_hrefs(links2)) by {
                                if href_pos(st.links, full) is None {
                                    assert forall|i: int, j: int| 0 <= i < j < links2.len() implies #[trigger] links2[i].href
                                        != #[trigger] links2[j].href by {
                                        if j < st.links.len() {
                                            assert(links2[i] == st.links[i] && links2[j] == st.links[j]);
                                        } else {
                                            assert(links2[i] == st.links[i]);
                                        }
                                    }
                                }
                            }
                            let cur2 = st.current.push(SpanView { text: link_label(idx as nat), link_idx: Some(idx as usize), heading: false });
                            let s1 = WState { links: links2, in_a: Some(idx as usize), current: cur2, ..st };
                            lemma_grow_ok(st, links2.len());
                            assert forall|k: int| 0 <= k < cur2.len() implies idx_ok(#[trigger] cur2[k].link_idx, links2.len()) by {
                                if k < st.current.len() {
                                    assert(cur2[k] == st.current[k]);
                                    assert(spans_ok(st.current, links2.len()));
                                }
                            }
                            assert(wstate_ok(s1));
                            if f > 0 {
                                lemma_walk_list_ok(nodes, base, s1, n.children, (f - 1) as nat);
                            }
                            let s2 = if f == 0 { s1 } else { walk_list(nodes, base, s1, n.children, (f - 1) as nat) };
                            assert(walk_spec(nodes, base, st, id, f) == WState { in_a: st.in_a, ..s2 });
                        } else {
                            if f > 0 {
                                lemma_walk_list_ok(nodes, base, st, n.children, (f - 1) as nat);
                            }
                        },
                        None => {
                            if f > 0 {
                                lemma_walk_list_ok(nodes, base, st, n.children, (f - 1) as nat);
                            }
                        },
                    }
                } else if tag == "img"@ {
                    let alt = trim(match attr_of(n.data, "alt"@) {
                        Some(a) => a,
                        None => "image"@,
                    });
                    if alt.len() > 0 {
                        let cur2 = st.current.push(SpanView { text: "["@ + alt + "]"@, link_idx: None, heading: false });
                        assert forall|k: int| 0 <= k < cur2.len() implies idx_ok(#[trigger] cur2[k].link_idx, st.links.len()) by {
                            if k < st.current.len() {
                                assert(cur2[k] == st.current[k]);
                            }
                        }
                    }
                } else if is_block(tag) {
                    lemma_flush_ok(st);
                    if !(tag == "br"@ || tag == "hr"@) {
                        let s1 = flush_spec(st);
                        if f > 0 {
                            lemma_walk_list_ok(nodes, base, s1, n.children, (f - 1) as nat);
                        }
                        let s2 = if f == 0 { s1 } else { walk_list(nodes, base, s1, n.children, (f - 1) as nat) };
                        lemma_flush_ok(s2);
                    }
                } else {
                    if f > 0 {
                        lemma_walk_list_ok(nodes, base, st, n.children, (f - 1) as nat);
                    }
                }
            },
            DataView::Text { content } => {
                let out = squeeze(content);
                if out.len() > 0 {
                    let cur2 = st.current.push(SpanView { text: out, link_idx: st.in_a, heading: st.in_heading });
                    assert forall|k: int| 0 <= k < cur2.len() implies idx_ok(#[trigger] cur2[k].link_idx, st.links.len()) by {
                        if k < st.current.len() {
                            assert(cur2[k] == st.current[k]);
                        }
                    }
                }
            },
            _ => {
                if f > 0 {
                    lemma_walk_list_ok(nodes, base, st, n.children, (f - 1) as nat);
                }
            },
        }
    }
}

proof fn lemma_walk_list_ok(nodes: Seq<NodeView>, base: Seq<char>, st: WState, ids: Seq<usize>, f: nat)
    requires
        wstate_ok(st),
    ensures
        wstate_ok(walk_list(nodes, base, st, ids, f)),
        walk_list(nodes, base, st, ids, f).links.len() >= st.links.len(),
        forall|i: int| 0 <= i < st.links.len() ==> #[trigger] walk_list(nodes, base, st, ids, f).links[i] == st.links[i],
        walk_list(nodes, base, st, ids, f).in_a == st.in_a,
    decreases f, ids.len() + 1,
{
    if ids.len() > 0 {
        lemma_walk_ok(nodes, base, st, ids[0], f);
        let s1 = walk_spec(nodes, base, st, ids[0], f);
        lemma_walk_list_ok(nodes, base, s1, ids.drop_first(), f);
        assert forall|i: int| 0 <= i < st.links.len() implies #[trigger] walk_list(nodes, base, st, ids, f).links[i]
            == st.links[i] by {
            assert(s1.links[i] == st.links[i]);
        }
    }
}

/// `b` begins with the lines of `a`.
pub open spec fn lines_extend(a: Seq<Seq<SpanView>>, b: Seq<Seq<SpanView>>) -> bool {
    a.len() <= b.len() && forall|i: int| 0 <= i < a.len() ==> #[trigger] b[i] == a[i]
}

proof fn lemma_flush_extends(st: WState)
    ensures
        lines_extend(st.lines, flush_spec(st).lines),
        lines_extend(st.lines, blank_spec(st).lines),
        flush_spec(st).current == Seq::<SpanView>::empty(),
{
}

/// A walk only adds lines after those it starts with.
proof fn lemma_walk_lines_grow(nodes: Seq<NodeView>, base: Seq<char>, st: WState, id: usize, f: nat)
    ensures
        lines_extend(st.lines, walk_spec(nodes, base, st, id, f).lines),
    decreases f, 0nat,
{
    if id < nodes.len() {
        let n = nodes[id as int];
        match n.data {
            DataView::Element { tag_name, .. } => {
                let tag = tag_name;
                if is_skipped(tag) {
                } else if is_heading(tag) {
                    lemma_flush_extends(st);
                    let s1 = WState { in_heading: true, ..blank_spec(st) };
                    if f > 0 {
                        lemma_walk_list_lines_grow(nodes, base, s1, n.children, (f - 1) as nat);
                    }
                    let s2 = if f == 0 { s1 } else { walk_list(nodes, base, s1, n.children, (f - 1) as nat) };
                    let s3 = WState { in_heading: false, ..s2 };
                    lemma_flush_extends(s3);
                } else if tag == "a"@ {
                    match attr_of(n.data, "href"@) {
                        Some(href) => if is_followed(href) {
                            let full = resolve_url_spec(base, href);
                            let lt = join(words(ct_list(nodes, n.children, nodes.len())), " "@);
                            let text = if lt.len() == 0 { href } else { lt };
                            let idx = match href_pos(st.links, full) {
                                Some(k) => k,
                                None => st.links.len() as int,
                            };
                            let s1 = WState {
                                links: if href_pos(st.links, full) is Some {
                                    st.links
                                } else {
                                    st.links.push(LinkView { text, href: full })
                                },
                                in_a: Some(idx as usize),
                                current: st.current.push(SpanView { text: link_label(idx as nat), link_idx: Some(idx as usize), heading: false }),
                                ..st
                            };
                            if f > 0 {
                                lemma_walk_list_lines_grow(nodes, base, s1, n.children, (f - 1) as nat);
                            }
                        } else {
                            if f > 0 {
                                lemma_walk_list_lines_grow(nodes, base, st, n.children, (f - 1) as nat);
                            }
                        },
                        None => {
                            if f > 0 {
                                lemma_walk_list_lines_grow(nodes, base, st, n.children, (f - 1) as nat);
                            }
                        },
                    }
                } else if tag == "img"@ {
                } else if is_block(tag) {
                    lemma_flush_extends(st);
                    if !(tag == "br"@ || tag == "hr"@) {
                        let s1 = flush_spec(st);
                        if f > 0 {
                            lemma_walk_list_lines_grow(nodes, base, s1, n.children, (f - 1) as nat);
                        }
                        let s2 = if f == 0 { s1 } else { walk_list(nodes, base, s1, n.children, (f - 1) as nat) };
                        lemma_flush_extends(s2);
                    }
                } else {
                    if f > 0 {
                        lemma_walk_list_lines_grow(nodes, base, st, n.children, (f - 1) as nat);
                    }
                }
            },
            DataView::Text { content } => {},
            _ => {
                if f > 0 {
                    lemma_walk_list_lines_grow(nodes, base, st, n.children, (f - 1) as nat);
                }
            },
        }
    }
}

proof fn lemma_walk_list_lines_grow(nodes: Seq<NodeView>, base: Seq<char>, st: WState, ids: Seq<usize>, f: nat)
    ensures
        lines_extend(st.lines, walk_list(nodes, base, st, ids, f).lines),
    decreases f, ids.len() + 1,
{
    if ids.len() > 0 {
        lemma_walk_lines_grow(nodes, base, st, ids[0], f);
        lemma_walk_list_lines_grow(nodes, base, walk_spec(nodes, base, st, ids[0], f), ids.drop_first(), f);
    }
}

/// The elements that take a line of their own and hold content: paragraphs,
/// sections, lists and their items, quotes, preformatted text, figures, forms,
/// and tables with their parts.
pub open spec fn line_block_tag(t: Seq<char>) -> bool {
    ||| t == "p"@ || t == "div"@ || t == "section"@ || t == "article"@ || t == "main"@ || t == "aside"@
    ||| t == "header"@ || t == "footer"@ || t == "nav"@ || t == "ul"@ || t == "ol"@ || t == "dl"@
    ||| t == "li"@ || t == "dt"@ || t == "dd"@ || t == "blockquote"@ || t == "pre"@ || t == "figure"@
    ||| t == "form"@ || t == "fieldset"@ || t == "table"@ || t == "thead"@ || t == "tbody"@ || t == "tfoot"@
    ||| t == "tr"@ || t == "th"@ || t == "td"@
}

proof fn lemma_line_block_plain(t: Seq<char>)
    requires
        line_block_tag(t),
    ensures
        !is_skipped(t),
        !is_heading(t),
        t != "a"@,
        t != "img"@,
        is_block(t),
        t != "br"@,
        t != "hr"@,
{
    reveal_strlit("a");
    reveal_strlit("article");
    reveal_strlit("aside");
    reveal_strlit("blockquote");
    reveal_strlit("br");
    reveal_strlit("canvas");
    reveal_strlit("dd");
    reveal_strlit("div");
    reveal_strlit("dl");
    reveal_strlit("dt");
    reveal_strlit("fieldset");
    reveal_strlit("figure");
    reveal_strlit("footer");
    reveal_strlit("form");
    reveal_strlit("h1");
    reveal_strlit("h2");
    reveal_strlit("h3");
    reveal_strlit("h4");
    reveal_strlit("h5");
    reveal_strlit("h6");
    reveal_strlit("head");
    reveal_strlit("header");
    reveal_strlit("hr");
    reveal_strlit("iframe");
    reveal_strlit("img");
    reveal_strlit("li");
    reveal_strlit("link");
    reveal_strlit("main");
    reveal_strlit("meta");
    reveal_strlit("nav");
    reveal_strlit("noscript");
    reveal_strlit("ol");
    reveal_strlit("p");
    reveal_strlit("pre");
    reveal_strlit("script");
    reveal_strlit("section");
    reveal_strlit("style");
    reveal_strlit("svg");
    reveal_strlit("table");
    reveal_strlit("tbody");
    reveal_strlit("td");
    reveal_strlit("template");
    reveal_strlit("tfoot");
    reveal_strlit("th");
    reveal_strlit("thead");
    reveal_strlit("tr");
    reveal_strlit("ul");
    if t == "p"@ {
        assert("p"@.len() != "script"@.len());
        assert("p"@.len() != "style"@.len());
        assert("p"@.len() != "noscript"@.len());
        assert("p"@.len() != "svg"@.len());
        assert("p"@.len() != "head"@.len());
        assert("p"@.len() != "canvas"@.len());
        assert("p"@.len() != "iframe"@.len());
        assert("p"@.len() != "meta"@.len());
        assert("p"@.len() != "link"@.len());
        assert("p"@.len() != "template"@.len());
        assert("p"@.len() != "h1"@.len());
        assert("p"@.len() != "h2"@.len());
        assert("p"@.len() != "h3"@.len());
        assert("p"@.len() != "h4"@.len());
        assert("p"@.len() != "h5"@.len());
        assert("p"@.len() != "h6"@.len());
        assert("p"@[0] != "a"@[0]);
        assert("p"@.len() != "img"@.len());
        assert("p"@.len() != "br"@.len());
        assert("p"@.len() != "hr"@.len());
    } else if t == "div"@ {
        assert("div"@.len() != "script"@.len());
        assert("div"@.len() != "style"@.len());
        assert("div"@.len() != "noscript"@.len());
        assert("div"@[0] != "svg"@[0]);
        assert("div"@.len() != "head"@.len());
        assert("div"@.len() != "canvas"@.len());
        assert("div"@.len() != "iframe"@.len());
        assert("div"@.len() != "meta"@.len());
        assert("div"@.len() != "link"@.len());
        assert("div"@.len() != "template"@.len());
        assert("div"@.len() != "h1"@.len());
        assert("div"@.len() != "h2"@.len());
        assert("div"@.len() != "h3"@.len());
        assert("div"@.len() != "h4"@.len());
        assert("div"@.len() != "h5"@.len());
        assert("div"@.len() != "h6"@.len());
        assert("div"@.len() != "a"@.len());
        assert("div"@[0] != "img"@[0]);
        assert("div"@.len() != "br"@.len());
        assert("div"@.len() != "hr"@.len());
    } else if t == "section"@ {
        assert("section"@.len() != "script"@.len());
        assert("section"@.len() != "style"@.len());
        assert("section"@.len() != "noscript"@.len());
        assert("section"@.len() != "svg"@.len());
        assert("section"@.len() != "head"@.len());
        assert("section"@.len() != "canvas"@.len());
        assert("section"@.len() != "iframe"@.len());
        assert("section"@.len() != "meta"@.len());
        assert("section"@.len() != "link"@.len());
        assert("section"@.len() != "template"@.len());
        assert("section"@.len() != "h1"@.len());
        assert("section"@.len() != "h2"@.len());
        assert("section"@.len() != "h3"@.len());
        assert("section"@.len() != "h4"@.len());
        assert("section"@.len() != "h5"@.len());
        assert("section"@.len() != "h6"@.len());
        assert("section"@.len() != "a"@.len());
        assert("section"@.len() != "img"@.len());
        assert("section"@.len() != "br"@.len());
        assert("section"@.len() != "hr"@.len());
    } else if t == "article"@ {
        assert("article"@.len() != "script"@.len());
        assert("article"@.len() != "style"@.len());
        assert("article"@.len() != "noscript"@.len());
        assert("article"@.len() != "svg"@.len());
        assert("article"@.len() != "head"@.len());
        assert("article"@.len() != "canvas"@.len());
        assert("article"@.len() != "iframe"@.len());
        assert("article"@.len() != "meta"@.len());
        assert("article"@.len() != "link"@.len());
        assert("article"@.len() != "template"@.len());
        assert("article"@.len() != "h1"@.len());
        assert("article"@.len() != "h2"@.len());
        assert("article"@.len() != "h3"@.len());
        assert("article"@.len() != "h4"@.len());
        assert("article"@.len() != "h5"@.len());
        assert("article"@.len() != "h6"@.len());
        assert("article"@.len() != "a"@.len());
        assert("article"@.len() != "img"@.len());
        assert("article"@.len() != "br"@.len());
        assert("article"@.len() != "hr"@.len());
    } else if t == "main"@ {
        assert("main"@.len() != "script"@.len());
        assert("main"@.len() != "style"@.len());
        assert("main"@.len() != "noscript"@.len());
        assert("main"@.len() != "svg"@.len());
        assert("main"@[0] != "head"@[0]);
        assert("main"@.len() != "canvas"@.len());
        assert("main"@.len() != "iframe"@.len());
        assert("main"@[1] != "meta"@[1]);
        assert("main"@[0] != "link"@[0]);
        assert("main"@.len() != "template"@.len());
        assert("main"@.len() != "h1"@.len());
        assert("main"@.len() != "h2"@.len());
        assert("main"@.len() != "h3"@.len());
        assert("main"@.len() != "h4"@.len());
        assert("main"@.len() != "h5"@.len());
        assert("main"@.len() != "h6"@.len());
        assert("main"@.len() != "a"@.len());
        assert("main"@.len() != "img"@.len());
        assert("main"@.len() != "br"@.len());
        assert("main"@.len() != "hr"@.len());
    } else if t == "aside"@ {
        assert("aside"@.len() != "script"@.len());
        assert("aside"@[0] != "style"@[0]);
        assert("aside"@.len() != "noscript"@.len());
        assert("aside"@.len() != "svg"@.len());
        assert("aside"@.len() != "head"@.len());
        assert("aside"@.len() != "canvas"@.len());
        assert("aside"@.len() != "iframe"@.len());
        assert("aside"@.len() != "meta"@.len());
        assert("aside"@.len() != "link"@.len());
        assert("aside"@.len() != "template"@.len());
        assert("aside"@.len() != "h1"@.len());
        assert("aside"@.len() != "h2"@.len());
        assert("aside"@.len() != "h3"@.len());
        assert("aside"@.len() != "h4"@.len());
        assert("aside"@.len() != "h5"@.len());
        assert("aside"@.len() != "h6"@.len());
        assert("aside"@.len() != "a"@.len());
        assert("aside"@.len() != "img"@.len());
        assert("aside"@.len() != "br"@.len());
        assert("aside"@.len() != "hr"@.len());
    } else if t == "header"@ {
        assert("header"@[0] != "script"@[0]);
        assert("header"@.len() != "style"@.len());
        assert("header"@.len() != "noscript"@.len());
        assert("header"@.len() != "svg"@.len());
        assert("header"@.len() != "head"@.len());
        assert("header"@[0] != "canvas"@[0]);
        assert("header"@[0] != "iframe"@[0]);
        assert("header"@.len() != "meta"@.len());
        assert("header"@.len() != "link"@.len());
        assert("header"@.len() != "template"@.len());
        assert("header"@.len() != "h1"@.len());
        assert("header"@.len() != "h2"@.len());
        assert("header"@.len() != "h3"@.len());
        assert("header"@.len() != "h4"@.len());
        assert("header"@.len() != "h5"@.len());
        assert("header"@.len() != "h6"@.len());
        assert("header"@.len() != "a"@.len());
        assert("header"@.len() != "img"@.len());
        assert("header"@.len() != "br"@.len());
        assert("header"@.len() != "hr"@.len());
    } else if t == "footer"@ {
        assert("footer"@[0] != "script"@[0]);
        assert("footer"@.len() != "style"@.len());
        assert("footer"@.len() != "noscript"@.len());
        assert("footer"@.len() != "svg"@.len());
        assert("footer"@.len() != "head"@.len());
        assert("footer"@[0] != "canvas"@[0]);
        assert("footer"@[0] != "iframe"@[0]);
        assert("footer"@.len() != "meta"@.len());
        assert("footer"@.len() != "link"@.len());
        assert("footer"@.len() != "template"@.len());
        assert("footer"@.len() != "h1"@.len());
        assert("footer"@.len() != "h2"@.len());
        assert("footer"@.len() != "h3"@.len());
        assert("footer"@.len() != "h4"@.len());
        assert("footer"@.len() != "h5"@.len());
        assert("footer"@.len() != "h6"@.len());
        assert("footer"@.len() != "a"@.len());
        assert("footer"@.len() != "img"@.len());
        assert("footer"@.len() != "br"@.len());
        assert("footer"@.len() != "hr"@.len());
    } else if t == "nav"@ {
        assert("nav"@.len() != "script"@.len());
        assert("nav"@.len() != "style"@.len());
        assert("nav"@.len() != "noscript"@.len());
        assert("nav"@[0] != "svg"@[0]);
        assert("nav"@.len() != "head"@.len());
        assert("nav"@.len() != "canvas"@.len());
        assert("nav"@.len() != "iframe"@.len());
        assert("nav"@.len() != "meta"@.len());
        assert("nav"@.len() != "link"@.len());
        assert("nav"@.len() != "template"@.len());
        assert("nav"@.len() != "h1"@.len());
        assert("nav"@.len() != "h2"@.len());
        assert("nav"@.len() != "h3"@.len());
        assert("nav"@.len() != "h4"@.len());
        assert("nav"@.len() != "h5"@.len());
        assert("nav"@.len() != "h6"@.len());
        assert("nav"@.len() != "a"@.len());
        assert("nav"@[0] != "img"@[0]);
        assert("nav"@.len() != "br"@.len());
        assert("nav"@.len() != "hr"@.len());
    } else if t == "ul"@ {
        assert("ul"@.len() != "script"@.len());
        assert("ul"@.len() != "style"@.len());
        assert("ul"@.len() != "noscript"@.len());
        assert("ul"@.len() != "svg"@.len());
        assert("ul"@.len() != "head"@.len());
        assert("ul"@.len() != "canvas"@.len());
        assert("ul"@.len() != "iframe"@.len());
        assert("ul"@.len() != "meta"@.len());
        assert("ul"@.len() != "link"@.len());
        assert("ul"@.len() != "template"@.len());
        assert("ul"@[0] != "h1"@[0]);
        assert("ul"@[0] != "h2"@[0]);
        assert("ul"@[0] != "h3"@[0]);
        assert("ul"@[0] != "h4"@[0]);
        assert("ul"@[0] != "h5"@[0]);
        assert("ul"@[0] != "h6"@[0]);
        assert("ul"@.len() != "a"@.len());
        assert("ul"@.len() != "img"@.len());
        assert("ul"@[0] != "br"@[0]);
        assert("ul"@[0] != "hr"@[0]);
    } else if t == "ol"@ {
        assert("ol"@.len() != "script"@.len());
        assert("ol"@.len() != "style"@.len());
        assert("ol"@.len() != "noscript"@.len());
        assert("ol"@.len() != "svg"@.len());
        assert("ol"@.len() != "head"@.len());
        assert("ol"@.len() != "canvas"@.len());
        assert("ol"@.len() != "iframe"@.len());
        assert("ol"@.len() != "meta"@.len());
        assert("ol"@.len() != "link"@.len());
        assert("ol"@.len() != "template"@.len());
        assert("ol"@[0] != "h1"@[0]);
        assert("ol"@[0] != "h2"@[0]);
        assert("ol"@[0] != "h3"@[0]);
        assert("ol"@[0] != "h4"@[0]);
        assert("ol"@[0] != "h5"@[0]);
        assert("ol"@[0] != "h6"@[0]);
        assert("ol"@.len() != "a"@.len());
        assert("ol"@.len() != "img"@.len());
        assert("ol"@[0] != "br"@[0]);
        assert("ol"@[0] != "hr"@[0]);
    } else if t == "dl"@ {
        assert("dl"@.len() != "script"@.len());
        assert("dl"@.len() != "style"@.len());
        assert("dl"@.len() != "noscript"@.len());
        assert("dl"@.len() != "svg"@.len());
        assert("dl"@.len() != "head"@.len());
        assert("dl"@.len() != "canvas"@.len());
        assert("dl"@.len() != "iframe"@.len());
        assert("dl"@.len() != "meta"@.len());
        assert("dl"@.len() != "link"@.len());
        assert("dl"@.len() != "template"@.len());
        assert("dl"@[0] != "h1"@[0]);
        assert("dl"@[0] != "h2"@[0]);
        assert("dl"@[0] != "h3"@[0]);
        assert("dl"@[0] != "h4"@[0]);
        assert("dl"@[0] != "h5"@[0]);
        assert("dl"@[0] != "h6"@[0]);
        assert("dl"@.len() != "a"@.len());
        assert("dl"@.len() != "img"@.len());
        assert("dl"@[0] != "br"@[0]);
        assert("dl"@[0] != "hr"@[0]);
    } else if t == "li"@ {
        assert("li"@.len() != "script"@.len());
        assert("li"@.len() != "style"@.len());
        assert("li"@.len() != "noscript"@.len());
        assert("li"@.len() != "svg"@.len());
        assert("li"@.len() != "head"@.len());
        assert("li"@.len() != "canvas"@.len());
        assert("li"@.len() != "iframe"@.len());
        assert("li"@.len() != "meta"@.len());
        assert("li"@.len() != "link"@.len());
        assert("li"@.len() != "template"@.len());
        assert("li"@[0] != "h1"@[0]);
        assert("li"@[0] != "h2"@[0]);
        assert("li"@[0] != "h3"@[0]);
        assert("li"@[0] != "h4"@[0]);
        assert("li"@[0] != "h5"@[0]);
        assert("li"@[0] != "h6"@[0]);
        assert("li"@.len() != "a"@.len());
        assert("li"@.len() != "img"@.len());
        assert("li"@[0] != "br"@[0]);
        assert("li"@[0] != "hr"@[0]);
    } else if t == "dt"@ {
        assert("dt"@.len() != "script"@.len());
        assert("dt"@.len() != "style"@.len());
        assert("dt"@.len() != "noscript"@.len());
        assert("dt"@.len() != "svg"@.len());
        assert("dt"@.len() != "head"@.len());
        assert("dt"@.len() != "canvas"@.len());
        assert("dt"@.len() != "iframe"@.len());
        assert("dt"@.len() != "meta"@.len());
        assert("dt"@.len() != "link"@.len());
        assert("dt"@.len() != "template"@.len());
        assert("dt"@[0] != "h1"@[0]);
        assert("dt"@[0] != "h2"@[0]);
        assert("dt"@[0] != "h3"@[0]);
        assert("dt"@[0] != "h4"@[0]);
        assert("dt"@[0] != "h5"@[0]);
        assert("dt"@[0] != "h6"@[0]);
        assert("dt"@.len() != "a"@.len());
        assert("dt"@.len() != "img"@.len());
        assert("dt"@[0] != "br"@[0]);
        assert("dt"@[0] != "hr"@[0]);
    } else if t == "dd"@ {
        assert("dd"@.len() != "script"@.len());
        assert("dd"@.len() != "style"@.len());
        assert("dd"@.len() != "noscript"@.len());
        assert("dd"@.len() != "svg"@.len());
        assert("dd"@.len() != "head"@.len());
        assert("dd"@.len() != "canvas"@.len());
        assert("dd"@.len() != "iframe"@.len());
        assert("dd"@.len() != "meta"@.len());
        assert("dd"@.len() != "link"@.len());
        assert("dd"@.len() != "template"@.len());
        assert("dd"@[0] != "h1"@[0]);
        assert("dd"@[0] != "h2"@[0]);
        assert("dd"@[0] != "h3"@[0]);
        assert("dd"@[0] != "h4"@[0]);
        assert("dd"@[0] != "h5"@[0]);
        assert("dd"@[0] != "h6"@[0]);
        assert("dd"@.len() != "a"@.len());
        assert("dd"@.len() != "img"@.len());
        assert("dd"@[0] != "br"@[0]);
        assert("dd"@[0] != "hr"@[0]);
    } else if t == "blockquote"@ {
        assert("blockquote"@.len() != "script"@.len());
        assert("blockquote"@.len() != "style"@.len());
        assert("blockquote"@.len() != "noscript"@.len());
        assert("blockquote"@.len() != "svg"@.len());
        assert("blockquote"@.len() != "head"@.len());
        assert("blockquote"@.len() != "canvas"@.len());
        assert("blockquote"@.len() != "iframe"@.len());
        assert("blockquote"@.len() != "meta"@.len());
        assert("blockquote"@.len() != "link"@.len());
        assert("blockquote"@.len() != "template"@.len());
        assert("blockquote"@.len() != "h1"@.len());
        assert("blockquote"@.len() != "h2"@.len());
        assert("blockquote"@.len() != "h3"@.len());
        assert("blockquote"@.len() != "h4"@.len());
        assert("blockquote"@.len() != "h5"@.len());
        assert("blockquote"@.len() != "h6"@.len());
        assert("blockquote"@.len() != "a"@.len());
        assert("blockquote"@.len() != "img"@.len());
        assert("blockquote"@.len() != "br"@.len());
        assert("blockquote"@.len() != "hr"@.len());
    } else if t == "pre"@ {
        assert("pre"@.len() != "script"@.len());
        assert("pre"@.len() != "style"@.len());
        assert("pre"@.len() != "noscript"@.len());
        assert("pre"@[0] != "svg"@[0]);
        assert("pre"@.len() != "head"@.len());
        assert("pre"@.len() != "canvas"@.len());
        assert("pre"@.len() != "iframe"@.len());
        assert("pre"@.len() != "meta"@.len());
        assert("pre"@.len() != "link"@.len());
        assert("pre"@.len() != "template"@.len());
        assert("pre"@.len() != "h1"@.len());
        assert("pre"@.len() != "h2"@.len());
        assert("pre"@.len() != "h3"@.len());
        assert("pre"@.len() != "h4"@.len());
        assert("pre"@.len() != "h5"@.len());
        assert("pre"@.len() != "h6"@.len());
        assert("pre"@.len() != "a"@.len());
        assert("pre"@[0] != "img"@[0]);
        assert("pre"@.len() != "br"@.len());
        assert("pre"@.len() != "hr"@.len());
    } else if t == "figure"@ {
        assert("figure"@[0] != "script"@[0]);
        assert("figure"@.len() != "style"@.len());
        assert("figure"@.len() != "noscript"@.len());
        assert("figure"@.len() != "svg"@.len());
        assert("figure"@.len() != "head"@.len());
        assert("figure"@[0] != "canvas"@[0]);
        assert("figure"@[0] != "iframe"@[0]);
        assert("figure"@.len() != "meta"@.len());
        assert("figure"@.len() != "link"@.len());
        assert("figure"@.len() != "template"@.len());
        assert("figure"@.len() != "h1"@.len());
        assert("figure"@.len() != "h2"@.len());
        assert("figure"@.len() != "h3"@.len());
        assert("figure"@.len() != "h4"@.len());
        assert("figure"@.len() != "h5"@.len());
        assert("figure"@.len() != "h6"@.len());
        assert("figure"@.len() != "a"@.len());
        assert("figure"@.len() != "img"@.len());
        assert("figure"@.len() != "br"@.len());
        assert("figure"@.len() != "hr"@.len());
    } else if t == "form"@ {
        assert("form"@.len() != "script"@.len());
        assert("form"@.len() != "style"@.len());
        assert("form"@.len() != "noscript"@.len());
        assert("form"@.len() != "svg"@.len());
        assert("form"@[0] != "head"@[0]);
        assert("form"@.len() != "canvas"@.len());
        assert("form"@.len() != "iframe"@.len());
        assert("form"@[0] != "meta"@[0]);
        assert("form"@[0] != "link"@[0]);
        assert("form"@.len() != "template"@.len());
        assert("form"@.len() != "h1"@.len());
        assert("form"@.len() != "h2"@.len());
        assert("form"@.len() != "h3"@.len());
        assert("form"@.len() != "h4"@.len());
        assert("form"@.len() != "h5"@.len());
        assert("form"@.len() != "h6"@.len());
        assert("form"@.len() != "a"@.len());
        assert("form"@.len() != "img"@.len());
        assert("form"@.len() != "br"@.len());
        assert("form"@.len() != "hr"@.len());
    } else if t == "fieldset"@ {
        assert("fieldset"@.len() != "script"@.len());
        assert("fieldset"@.len() != "style"@.len());
        assert("fieldset"@[0] != "noscript"@[0]);
        assert("fieldset"@.len() != "svg"@.len());
        assert("fieldset"@.len() != "head"@.len());
        assert("fieldset"@.len() != "canvas"@.len());
        assert("fieldset"@.len() != "iframe"@.len());
        assert("fieldset"@.len() != "meta"@.len());
        assert("fieldset"@.len() != "link"@.len());
        assert("fieldset"@[0] != "template"@[0]);
        assert("fieldset"@.len() != "h1"@.len());
        assert("fieldset"@.len() != "h2"@.len());
        assert("fieldset"@.len() != "h3"@.len());
        assert("fieldset"@.len() != "h4"@.len());
        assert("fieldset"@.len() != "h5"@.len());
        assert("fieldset"@.len() != "h6"@.len());
        assert("fieldset"@.len() != "a"@.len());
        assert("fieldset"@.len() != "img"@.len());
        assert("fieldset"@.len() != "br"@.len());
        assert("fieldset"@.len() != "hr"@.len());
    } else if t == "table"@ {
        assert("table"@.len() != "script"@.len());
        assert("table"@[0] != "style"@[0]);
        assert("table"@.len() != "noscript"@.len());
        assert("table"@.len() != "svg"@.len());
        assert("table"@.len() != "head"@.len());
        assert("table"@.len() != "canvas"@.len());
        assert("table"@.len() != "iframe"@.len());
        assert("table"@.len() != "meta"@.len());
        assert("table"@.len() != "link"@.len());
        assert("table"@.len() != "template"@.len());
        assert("table"@.len() != "h1"@.len());
        assert("table"@.len() != "h2"@.len());
        assert("table"@.len() != "h3"@.len());
        assert("table"@.len() != "h4"@.len());
        assert("table"@.len() != "h5"@.len());
        assert("table"@.len() != "h6"@.len());
        assert("table"@.len() != "a"@.len());
        assert("table"@.len() != "img"@.len());
        assert("table"@.len() != "br"@.len());
        assert("table"@.len() != "hr"@.len());
    } else if t == "thead"@ {
        assert("thead"@.len() != "script"@.len());
        assert("thead"@[0] != "style"@[0]);
        assert("thead"@.len() != "noscript"@.len());
        assert("thead"@.len() != "svg"@.len());
        assert("thead"@.len() != "head"@.len());
        assert("thead"@.len() != "canvas"@.len());
        assert("thead"@.len() != "iframe"@.len());
        assert("thead"@.len() != "meta"@.len());
        assert("thead"@.len() != "link"@.len());
        assert("thead"@.len() != "template"@.len());
        assert("thead"@.len() != "h1"@.len());
        assert("thead"@.len() != "h2"@.len());
        assert("thead"@.len() != "h3"@.len());
        assert("thead"@.len() != "h4"@.len());
        assert("thead"@.len() != "h5"@.len());
        assert("thead"@.len() != "h6"@.len());
        assert("thead"@.len() != "a"@.len());
        assert("thead"@.len() != "img"@.len());
        assert("thead"@.len() != "br"@.len());
        assert("thead"@.len() != "hr"@.len());
    } else if t == "tbody"@ {
        assert("tbody"@.len() != "script"@.len());
        assert("tbody"@[0] != "style"@[0]);
        assert("tbody"@.len() != "noscript"@.len());
        assert("tbody"@.len() != "svg"@.len());
        assert("tbody"@.len() != "head"@.len());
        assert("tbody"@.len() != "canvas"@.len());
        assert("tbody"@.len() != "iframe"@.len());
        assert("tbody"@.len() != "meta"@.len());
        assert("tbody"@.len() != "link"@.len());
        assert("tbody"@.len() != "template"@.len());
        assert("tbody"@.len() != "h1"@.len());
        assert("tbody"@.len() != "h2"@.len());
        assert("tbody"@.len() != "h3"@.len());
        assert("tbody"@.len() != "h4"@.len());
        assert("tbody"@.len() != "h5"@.len());
        assert("tbody"@.len() != "h6"@.len());
        assert("tbody"@.len() != "a"@.len());
        assert("tbody"@.len() != "img"@.len());
        assert("tbody"@.len() != "br"@.len());
        assert("tbody"@.len() != "hr"@.len());
    } else if t == "tfoot"@ {
        assert("tfoot"@.len() != "script"@.len());
        assert("tfoot"@[0] != "style"@[0]);
        assert("tfoot"@.len() != "noscript"@.len());
        assert("tfoot"@.len() != "svg"@.len());
        assert("tfoot"@.len() != "head"@.len());
        assert("tfoot"@.len() != "canvas"@.len());
        assert("tfoot"@.len() != "iframe"@.len());
        assert("tfoot"@.len() != "meta"@.len());
        assert("tfoot"@.len() != "link"@.len());
        assert("tfoot"@.len() != "template"@.len());
        assert("tfoot"@.len() != "h1"@.len());
        assert("tfoot"@.len() != "h2"@.len());
        assert("tfoot"@.len() != "h3"@.len());
        assert("tfoot"@.len() != "h4"@.len());
        assert("tfoot"@.len() != "h5"@.len());
        assert("tfoot"@.len() != "h6"@.len());
        assert("tfoot"@.len() != "a"@.len());
        assert("tfoot"@.len() != "img"@.len());
        assert("tfoot"@.len() != "br"@.len());
        assert("tfoot"@.len() != "hr"@.len());
    } else if t == "tr"@ {
        assert("tr"@.len() != "script"@.len());
        assert("tr"@.len() != "style"@.len());
        assert("tr"@.len() != "noscript"@.len());
        assert("tr"@.len() != "svg"@.len());
        assert("tr"@.len() != "head"@.len());
        assert("tr"@.len() != "canvas"@.len());
        assert("tr"@.len() != "iframe"@.len());
        assert("tr"@.len() != "meta"@.len());
        assert("tr"@.len() != "link"@.len());
        assert("tr"@.len() != "template"@.len());
        assert("tr"@[0] != "h1"@[0]);
        assert("tr"@[0] != "h2"@[0]);
        assert("tr"@[0] != "h3"@[0]);
        assert("tr"@[0] != "h4"@[0]);
        assert("tr"@[0] != "h5"@[0]);
        assert("tr"@[0] != "h6"@[0]);
        assert("tr"@.len() != "a"@.len());
        assert("tr"@.len() != "img"@.len());
        assert("tr"@[0] != "br"@[0]);
        assert("tr"@[0] != "hr"@[0]);
    } else if t == "th"@ {
        assert("th"@.len() != "script"@.len());
        assert("th"@.len() != "style"@.len());
        assert("th"@.len() != "noscript"@.len());
        assert("th"@.len() != "svg"@.len());
        assert("th"@.len() != "head"@.len());
        assert("th"@.len() != "canvas"@.len());
        assert("th"@.len() != "iframe"@.len());
        assert("th"@.len() != "meta"@.len());
        assert("th"@.len() != "link"@.len());
        assert("th"@.len() != "template"@.len());
        assert("th"@[0] != "h1"@[0]);
        assert("th"@[0] != "h2"@[0]);
        assert("th"@[0] != "h3"@[0]);
        assert("th"@[0] != "h4"@[0]);
        assert("th"@[0] != "h5"@[0]);
        assert("th"@[0] != "h6"@[0]);
        assert("th"@.len() != "a"@.len());
        assert("th"@.len() != "img"@.len());
        assert("th"@[0] != "br"@[0]);
        assert("th"@[0] != "hr"@[0]);
    } else if t == "td"@ {
        assert("td"@.len() != "script"@.len());
        assert("td"@.len() != "style"@.len());
        assert("td"@.len() != "noscript"@.len());
        assert("td"@.len() != "svg"@.len());
        assert("td"@.len() != "head"@.len());
        assert("td"@.len() != "canvas"@.len());
        assert("td"@.len() != "iframe"@.len());
        assert("td"@.len() != "meta"@.len());
        assert("td"@.len() != "link"@.len());
        assert("td"@.len() != "template"@.len());
        assert("td"@[0] != "h1"@[0]);
        assert("td"@[0] != "h2"@[0]);
        assert("td"@[0] != "h3"@[0]);
        assert("td"@[0] != "h4"@[0]);
        assert("td"@[0] != "h5"@[0]);
        assert("td"@[0] != "h6"@[0]);
        assert("td"@.len() != "a"@.len());
        assert("td"@.len() != "img"@.len());
        assert("td"@[0] != "br"@[0]);
        assert("td"@[0] != "hr"@[0]);
    }
}


/// Every element that takes a line of its own (a paragraph, a section, a list
/// or list item, a quote, a table part, ...) starts and ends its own lines:
/// the text before it is finished as a line before anything of the element is
/// written, and no span is left pending after it for later text to join.
pub proof fn lemma_block_element_own_line(nodes: Seq<NodeView>, base: Seq<char>, st: WState, id: usize, f: nat)
    requires
        id < nodes.len(),
        tag_of(nodes[id as int].data) matches Some(t) && line_block_tag(t),
    ensures
        lines_extend(flush_spec(st).lines, walk_spec(nodes, base, st, id, f).lines),
        walk_spec(nodes, base, st, id, f).current == Seq::<SpanView>::empty(),
{
    let n = nodes[id as int];
    match n.data {
        DataView::Element { tag_name, .. } => {
            lemma_line_block_plain(tag_name);
            let s1 = flush_spec(st);
            lemma_flush_extends(st);
            if f > 0 {
                lemma_walk_list_lines_grow(nodes, base, s1, n.children, (f - 1) as nat);
            }
            let s2 = if f == 0 { s1 } else { walk_list(nodes, base, s1, n.children, (f - 1) as nat) };
            lemma_flush_extends(s2);
            assert(walk_spec(nodes, base, st, id, f) == flush_spec(s2));
        },
        _ => {},
    }
}

/// A list item starts a line of its own and ends it: the text before an
/// `<li>` is finished as a line before anything of the item is written
/// (the lines after the item begin with the lines as they were once that
/// text is flushed), and nothing after the item joins its last line (no
/// span is left pending).
pub proof fn lemma_list_item_own_line(nodes: Seq<NodeView>, base: Seq<char>, st: WState, id: usize, f: nat)
    requires
        id < nodes.len(),
        tag_of(nodes[id as int].data) == Some("li"@),
    ensures
        lines_extend(flush_spec(st).lines, walk_spec(nodes, base, st, id, f).lines),
        walk_spec(nodes, base, st, id, f).current == Seq::<SpanView>::empty(),
{
    lemma_block_element_own_line(nodes, base, st, id, f);
}

/// A `<br>` or `<hr>` ends the line being written and adds nothing else: the
/// walk is exactly a flush of the pending spans.
pub proof fn lemma_break_ends_line(nodes: Seq<NodeView>, base: Seq<char>, st: WState, id: usize, f: nat)
    requires
        id < nodes.len(),
        tag_of(nodes[id as int].data) == Some("br"@) || tag_of(nodes[id as int].data) == Some("hr"@),
    ensures
        walk_spec(nodes, base, st, id, f) == flush_spec(st),
{
    reveal_strlit("a");
    reveal_strlit("br");
    reveal_strlit("canvas");
    reveal_strlit("h1");
    reveal_strlit("h2");
    reveal_strlit("h3");
    reveal_strlit("h4");
    reveal_strlit("h5");
    reveal_strlit("h6");
    reveal_strlit("head");
    reveal_strlit("hr");
    reveal_strlit("iframe");
    reveal_strlit("img");
    reveal_strlit("link");
    reveal_strlit("meta");
    reveal_strlit("noscript");
    reveal_strlit("script");
    reveal_strlit("style");
    reveal_strlit("svg");
    reveal_strlit("template");
    if tag_of(nodes[id as int].data) == Some("br"@) {
        assert("br"@.len() != "script"@.len());
        assert("br"@.len() != "style"@.len());
        assert("br"@.len() != "noscript"@.len());
        assert("br"@.len() != "svg"@.len());
        assert("br"@.len() != "head"@.len());
        assert("br"@.len() != "canvas"@.len());
        assert("br"@.len() != "iframe"@.len());
        assert("br"@.len() != "meta"@.len());
        assert("br"@.len() != "link"@.len());
        assert("br"@.len() != "template"@.len());
        assert("br"@[0] != "h1"@[0]);
        assert("br"@[0] != "h2"@[0]);
        assert("br"@[0] != "h3"@[0]);
        assert("br"@[0] != "h4"@[0]);
        assert("br"@[0] != "h5"@[0]);
        assert("br"@[0] != "h6"@[0]);
        assert("br"@.len() != "a"@.len());
        assert("br"@.len() != "img"@.len());
    } else {
        assert("hr"@.len() != "script"@.len());
        assert("hr"@.len() != "style"@.len());
        assert("hr"@.len() != "noscript"@.len());
        assert("hr"@.len() != "svg"@.len());
        assert("hr"@.len() != "head"@.len());
        assert("hr"@.len() != "canvas"@.len());
        assert("hr"@.len() != "iframe"@.len());
        assert("hr"@.len() != "meta"@.len());
        assert("hr"@.len() != "link"@.len());
        assert("hr"@.len() != "template"@.len());
        assert("hr"@[1] != "h1"@[1]);
        assert("hr"@[1] != "h2"@[1]);
        assert("hr"@[1] != "h3"@[1]);
        assert("hr"@[1] != "h4"@[1]);
        assert("hr"@[1] != "h5"@[1]);
        assert("hr"@[1] != "h6"@[1]);
        assert("hr"@.len() != "a"@.len());
        assert("hr"@.len() != "img"@.len());
    }
}

/// Walking a node leaves the links found before it where they are: the
/// table only grows at its end.
pub proof fn lemma_walk_keeps_links(nodes: Seq<NodeView>, base: Seq<char>, st: WState, ids: Seq<usize>, f: nat)
    requires
        wstate_ok(st),
    ensures
        walk_list(nodes, base, st, ids, f).links.len() >= st.links.len(),
        forall|i: int| 0 <= i < st.links.len() ==> #[trigger] walk_list(nodes, base, st, ids, f).links[i] == st.links[i],
{
    lemma_walk_list_ok(nodes, base, st, ids, f);
}

/// A followed `<a href>` gets the index of the first link to its resolved
/// target (a new one at the end when there is none): its label span
/// `[k+1]` and the text spans below it carry that index, and after its
/// walk the table's entry at that index names that target. With
/// `lemma_walk_keeps_links` the entry stays through the rest of the walk.
pub proof fn lemma_anchor_names_its_target(nodes: Seq<NodeView>, base: Seq<char>, st: WState, id: usize, f: nat)
    requires
        wstate_ok(st),
        id < nodes.len(),
        tag_of(nodes[id as int].data) == Some("a"@),
        attr_of(nodes[id as int].data, "href"@) matches Some(h) && is_followed(h),
    ensures
        ({
            let full = resolve_url_spec(base, attr_of(nodes[id as int].data, "href"@)->0);
            let k = match href_pos(st.links, full) {
                Some(k) => k,
                None => st.links.len() as int,
            };
            let r = walk_spec(nodes, base, st, id, f);
            &&& 0 <= k < r.links.len()
            &&& r.links[k].href == full
        }),
{
    let n = nodes[id as int];
    let href = attr_of(n.data, "href"@)->0;
    let full = resolve_url_spec(base, href);
    lemma_href_pos(st.links, full);
    lemma_walk_ok(nodes, base, st, id, f);
    let k = match href_pos(st.links, full) {
        Some(k) => k,
        None => st.links.len() as int,
    };
    match n.data {
        DataView::Element { tag_name, .. } => {
            assert(tag_name == "a"@);
            assert(!is_skipped(tag_name) && !is_heading(tag_name)) by {
                reveal_strlit("a");
                reveal_strlit("script");
                assert("a"@.len() != "script"@.len());
                reveal_strlit("style");
                assert("a"@.len() != "style"@.len());
                reveal_strlit("noscript");
                assert("a"@.len() != "noscript"@.len());
                reveal_strlit("svg");
                assert("a"@.len() != "svg"@.len());
                reveal_strlit("head");
                assert("a"@.len() != "head"@.len());
                reveal_strlit("canvas");
                assert("a"@.len() != "canvas"@.len());
                reveal_strlit("iframe");
                assert("a"@.len() != "iframe"@.len());
                reveal_strlit("meta");
                assert("a"@.len() != "meta"@.len());
                reveal_strlit("link");
                assert("a"@.len() != "link"@.len());
                reveal_strlit("template");
                assert("a"@.len() != "template"@.len());
                reveal_strlit("h1");
                assert("a"@.len() != "h1"@.len());
                reveal_strlit("h2");
                assert("a"@.len() != "h2"@.len());
                reveal_strlit("h3");
                assert("a"@.len() != "h3"@.len());
                reveal_strlit("h4");
                assert("a"@.len() != "h4"@.len());
                reveal_strlit("h5");
                assert("a"@.len() != "h5"@.len());
                reveal_strlit("h6");
                assert("a"@.len() != "h6"@.len());
            }
            let lt = join(words(ct_list(nodes, n.children, nodes.len())), " "@);
            let text = if lt.len() == 0 { href } else { lt };
            let links2 = if href_pos(st.links, full) is Some {
                st.links
            } else {
                st.links.push(LinkView { text, href: full })
            };
            let cur2 = st.current.push(SpanView { text: link_label(k as nat), link_idx: Some(k as usize), heading: false });
            let s1 = WState { links: links2, in_a: Some(k as usize), current: cur2, ..st };
            assert(links2[k].href == full);
            if f > 0 {
                lemma_walk_ok(nodes, base, st, id, f);
                lemma_grow_ok(st, links2.len());
                assert(wstate_ok(s1)) by {
                    assert(distinct_hrefs(links2)) by {
                        if href_pos(st.links, full) is None {
                            assert forall|i: int, j: int| 0 <= i < j < links2.len() implies #[trigger] links2[i].href
                                != #[trigger] links2[j].href by {
                                if j < st.links.len() {
                                    assert(links2[i] == st.links[i] && links2[j] == st.links[j]);
                                } else {
                                    assert(links2[i] == st.links[i]);
                                }
                            }
                        }
                    }
                    assert forall|q: int| 0 <= q < cur2.len() implies idx_ok(#[trigger] cur2[q].link_idx, links2.len()) by {
                        if q < st.current.len() {
                            assert(cur2[q] == st.current[q]);
                            assert(spans_ok(st.current, links2.len()));
                        }
                    }
                }
                lemma_walk_list_ok(nodes, base, s1, n.children, (f - 1) as nat);
            }
        },
        _ => {},
    }
}

/// The walk's link table names each target once, and every link index in
/// the rendered lines, the References section included, points into it.
pub proof fn lemma_walk_links_consistent(nodes: Seq<NodeView>, start: usize, base: Seq<char>)
    ensures
        distinct_hrefs(walked(nodes, start, base).links),
        lines_ok(
            with_references(walked(nodes, start, base).lines, walked(nodes, start, base).links),
            walked(nodes, start, base).links.len(),
        ),
{
    let s0 = start_state();
    assert(wstate_ok(s0));
    lemma_walk_ok(nodes, base, s0, start, nodes.len());
    lemma_flush_ok(walk_spec(nodes, base, s0, start, nodes.len()));
    let w = walked(nodes, start, base);
    let n = w.links.len();
    let all = with_references(w.lines, w.links);
    if n > 0 {
        let head: Seq<Seq<SpanView>> = seq![
            Seq::empty(),
            seq![SpanView { text: "References"@, link_idx: None, heading: true }],
            Seq::empty(),
        ];
        let refs = Seq::new(n, |i: int| ref_line(w.links, i));
        assert forall|k: int| 0 <= k < all.len() implies spans_ok(#[trigger] all[k], n) by {
            if k < w.lines.len() {
                assert(all[k] == w.lines[k]);
            } else if k < w.lines.len() + 3 {
                assert(all[k] == head[k - w.lines.len()]);
                assert(spans_ok(head[k - w.lines.len()], n));
            } else {
                let i = k - w.lines.len() - 3;
                assert(all[k] == refs[i]);
                assert(refs[i] == ref_line(w.links, i));
            }
        }
    }
}

// ── The walker ───────────────────────────────────────────────────────────────

struct WalkCtx<'a> {
    nodes: &'a [Node],
    base_url: &'a str,
    links: Vec<Link>,
    lines: Vec<RichLine>,
    current: RichLine,
    in_heading: bool,
    in_a: Option<usize>,
}

impl<'a> WalkCtx<'a> {
    spec fn st(&self) -> WState {
        WState {
            links: links_view(self.links@),
            lines: lines_view(self.lines@),
            current: line_view(self.current@),
            in_heading: self.in_heading,
            in_a: self.in_a,
        }
    }

    fn push_text(&mut self, text: &str)
        ensures
            final(self).st() == push_text_spec(old(self).st(), text@),
            final(self).nodes == old(self).nodes,
            final(self).base_url == old(self).base_url,
    {
        let v = chars_of(text);
        let mut out: Vec<char> = Vec::new();
        let mut prev_space = true;
        let mut i: usize = 0;
        while i < v.len()
            invariant
                i <= v@.len(),
                v@ == text@,
                squeeze_state(v@.take(i as int)) == (out@, prev_space),
            decreases v@.len() - i,
        {
            let c = v[i];
            assert(v@.take(i + 1).drop_last() =~= v@.take(i as int));
            let c2 = if c == '\n' || c == '\r' || c == '\t' { ' ' } else { c };
            if c2 == ' ' {
                if !prev_space {
                    out.push(' ');
                }
                prev_space = true;
            } else {
                out.push(c2);
                prev_space = false;
            }
            i = i + 1;
        }
        assert(v@.take(i as int) =~= v@);
        if out.len() == 0 {
            return;
        }
        let span = RichSpan { text: string_from(out.as_slice()), link_idx: self.in_a, heading: self.in_heading };
        self.current.push(span);
        assert(line_view(self.current@) =~= push_text_spec(old(self).st(), text@).current);
    }

    fn flush_line(&mut self)
        ensures
            final(self).st() == flush_spec(old(self).st()),
            final(self).nodes == old(self).nodes,
            final(self).base_url == old(self).base_url,
    {
        let mut content = false;
        let mut k: usize = 0;
        while k < self.current.len()
            invariant
                k <= self.current@.len(),
                self.st() == old(self).st(),
                self.nodes == old(self).nodes,
                self.base_url == old(self).base_url,
                content == exists|j: int| 0 <= j < k && #[trigger] trim(line_view(self.current@)[j].text).len() > 0,
            decreases self.current@.len() - k,
        {
            let t = trim_str(self.current[k].text.as_str());
            assert(line_view(self.current@)[k as int] == self.current@[k as int]@);
            if !t.as_str().is_empty() {
                assert(trim(line_view(self.current@)[k as int].text).len() > 0);
                content = true;
            }
            k = k + 1;
        }
        let mut line: RichLine = Vec::new();
        std::mem::swap(&mut line, &mut self.current);
        if content {
            self.lines.push(line);
            assert(lines_view(self.lines@) =~= lines_view(old(self).lines@).push(line_view(line@)));
        }
        assert(line_view(self.current@) =~= Seq::<SpanView>::empty());
    }

    fn blank_line(&mut self)
        ensures
            final(self).st() == blank_spec(old(self).st()),
            final(self).nodes == old(self).nodes,
            final(self).base_url == old(self).base_url,
    {
        self.flush_line();
        let ghost mid = self.st();
        let n = self.lines.len();
        if n > 0 {
            assert(mid.lines.last() == line_view(self.lines@[n - 1]@));
        }
        if n > 0 && self.lines[n - 1].len() > 0 {
            let empty: RichLine = Vec::new();
            self.lines.push(empty);
            assert(line_view(empty@) =~= Seq::<SpanView>::empty());
            assert(lines_view(self.lines@) =~= mid.lines.push(Seq::empty()));
        }
    }

    fn walk_children(&mut self, kids: &Vec<usize>, start: usize, f: usize)
        requires
            start <= kids@.len(),
        ensures
            final(self).st() == walk_list(nodes_view(old(self).nodes@), old(self).base_url@, old(self).st(), kids@.skip(start as int), f as nat),
            final(self).nodes == old(self).nodes,
            final(self).base_url == old(self).base_url,
        decreases f, kids@.len() - start + 1,
    {
        if start >= kids.len() {
            assert(kids@.skip(start as int).len() == 0);
            return;
        }
        self.walk(kids[start], f);
        self.walk_children(kids, start + 1, f);
        assert(kids@.skip(start as int).drop_first() =~= kids@.skip(start + 1));
    }

    fn walk(&mut self, id: usize, f: usize)
        ensures
            final(self).st() == walk_spec(nodes_view(old(self).nodes@), old(self).base_url@, old(self).st(), id, f as nat),
            final(self).nodes == old(self).nodes,
            final(self).base_url == old(self).base_url,
        decreases f, 0nat,
    {
        let nodes = self.nodes;
        if id >= nodes.len() {
            return;
        }
        let node = &nodes[id];
        let ghost nv = nodes_view(nodes@);
        assert(nv[id as int] == node@);
        assert(node.children@.skip(0) =~= node.children@);
        match &node.data {
            NodeData::Element { tag_name, .. } => {
                let tag = tag_name.as_str();
                if is_skipped_tag(tag) {
                    return;
                }
                if is_heading_tag(tag) {
                    self.blank_line();
                    self.in_heading = true;
                    if f > 0 {
                        self.walk_children(&node.children, 0, f - 1);
                    }
                    self.in_heading = false;
                    self.flush_line();
                    let ghost s4 = self.st();
                    let empty: RichLine = Vec::new();
                    self.lines.push(empty);
                    assert(line_view(empty@) =~= Seq::<SpanView>::empty());
                    assert(lines_view(self.lines@) =~= s4.lines.push(Seq::empty()));
                    return;
                }
                if str_eq(tag, "a") {
                    if let Some(href) = node.attr("href") {
                        if is_followed_exec(href) {
                            let full = resolve_url(self.base_url, href);
                            let text = link_text(nodes, &node.children, href);
                            let idx = match find_href(&self.links, full.as_str()) {
                                Some(k) => k,
                                None => {
                                    let n = self.links.len();
                                    self.links.push(Link { text, href: full });
                                    proof {
                                        assert(links_view(self.links@) =~= links_view(old(self).links@).push(
                                            links_view(self.links@).last(),
                                        ));
                                    }
                                    n
                                },
                            };
                            let saved_a = self.in_a;
                            self.in_a = Some(idx);
                            let label = link_label_string(idx);
                            self.current.push(RichSpan { text: label, link_idx: Some(idx), heading: false });
                            proof {
                                assert(line_view(self.current@) =~= line_view(old(self).current@).push(line_view(self.current@).last()));
                            }
                            if f > 0 {
                                self.walk_children(&node.children, 0, f - 1);
                            }
                            self.in_a = saved_a;
                            return;
                        }
                    }
                    if f > 0 {
                        self.walk_children(&node.children, 0, f - 1);
                    }
                    return;
                }
                if str_eq(tag, "img") {
                    let alt = match node.attr("alt") {
                        Some(a) => trim_str(a),
                        None => trim_str("image"),
                    };
                    if !alt.as_str().is_empty() {
                        let mut t = String::new();
                        t.append("[");
                        t.append(alt.as_str());
                        t.append("]");
                        self.current.push(RichSpan { text: t, link_idx: None, heading: false });
                        assert(line_view(self.current@) =~= walk_spec(nv, old(self).base_url@, old(self).st(), id, f as nat).current);
                    }
                    return;
                }
                if is_block_tag(tag) {
                    if str_eq(tag, "br") || str_eq(tag, "hr") {
                        self.flush_line();
                        return;
                    }
                    self.flush_line();
                    if f > 0 {
                        self.walk_children(&node.children, 0, f - 1);
                    }
                    self.flush_line();
                } else {
                    if f > 0 {
                        self.walk_children(&node.children, 0, f - 1);
                    }
                }
            },
            NodeData::Text { content } => {
                self.push_text(content.as_str());
            },
            _ => {
                if f > 0 {
                    self.walk_children(&node.children, 0, f - 1);
                }
            },
        }
    }
}

proof fn lemma_href_pos(ls: Seq<LinkView>, href: Seq<char>)
    ensures
        href_pos(ls, href) matches Some(k) ==> 0 <= k < ls.len() && ls[k].href == href && forall|j: int|
            0 <= j < k ==> ls[j].href != href,
        href_pos(ls, href) is None ==> forall|j: int| 0 <= j < ls.len() ==> ls[j].href != href,
    decreases ls.len(),
{
    if ls.len() > 0 {
        lemma_href_pos(ls.drop_last(), href);
        assert forall|j: int| 0 <= j < ls.len() - 1 implies ls[j] == ls.drop_last()[j] by {}
    }
}

/// The position of the first link to `href`; see `href_pos`.
fn find_href(ls: &Vec<Link>, href: &str) -> (r: Option<usize>)
    ensures
        match r {
            Some(k) => href_pos(links_view(ls@), href@) == Some(k as int),
            None => href_pos(links_view(ls@), href@) is None,
        },
{
    let ghost lv = links_view(ls@);
    proof {
        lemma_href_pos(lv, href@);
    }
    let mut k: usize = 0;
    while k < ls.len()
        invariant
            k <= ls@.len(),
            lv == links_view(ls@),
            forall|j: int| 0 <= j < k ==> lv[j].href != href@,
        decreases ls@.len() - k,
    {
        assert(lv[k as int] == ls@[k as int]@);
        if str_eq(ls[k].href.as_str(), href) {
            proof {
                lemma_href_pos(lv, href@);
                match href_pos(lv, href@) {
                    Some(q) => {
                        if q < k {
                            assert(lv[q].href != href@);
                        }
                        if q > k {
                            assert(lv[k as int].href == href@);
                        }
                    },
                    None => {
                        assert(lv[k as int].href == href@);
                    },
                }
            }
            return Some(k);
        }
        k = k + 1;
    }
    proof {
        lemma_href_pos(lv, href@);
        match href_pos(lv, href@) {
            Some(q) => {
                assert(lv[q].href == href@);
            },
            None => {},
        }
    }
    None
}

fn link_label_string(idx: usize) -> (r: String)
    ensures
        r@ == link_label(idx as nat),
{
    let mut t = String::new();
    t.append("[");
    let d = decimal_string(idx as u128 + 1);
    t.append(d.as_str());
    t.append("]");
    assert(t@ =~= link_label(idx as nat));
    t
}

fn link_text(nodes: &[Node], kids: &Vec<usize>, href: &str) -> (r: String)
    ensures
        r@ == (if join(words(ct_list(nodes_view(nodes@), kids@, nodes@.len() as nat)), " "@).len() == 0 {
            href@
        } else {
            join(words(ct_list(nodes_view(nodes@), kids@, nodes@.len() as nat)), " "@)
        }),
{
    let raw = collect_text(nodes, kids.as_slice());
    let rv = chars_of(raw.as_str());
    let ws = split_words(rv.as_slice());
    let sp = [' '];
    assert(sp@ =~= " "@) by { reveal_strlit(" "); }
    let joined = join_chars(&ws, &sp);
    if joined.len() == 0 {
        href.to_owned()
    } else {
        string_from(joined.as_slice())
    }
}

fn is_followed_exec(href: &str) -> (r: bool)
    ensures
        r == is_followed(href@),
{
    !href.is_empty() && !str_starts_with(href, "#") && !str_starts_with(href, "javascript")
}

fn is_skipped_tag(t: &str) -> (r: bool)
    ensures
        r == is_skipped(t@),
{
    str_eq(t, "script") || str_eq(t, "style") || str_eq(t, "noscript") || str_eq(t, "svg") || str_eq(t, "head")
        || str_eq(t, "canvas") || str_eq(t, "iframe") || str_eq(t, "meta") || str_eq(t, "link") || str_eq(t, "template")
}

fn is_heading_tag(t: &str) -> (r: bool)
    ensures
        r == is_heading(t@),
{
    str_eq(t, "h1") || str_eq(t, "h2") || str_eq(t, "h3") || str_eq(t, "h4") || str_eq(t, "h5") || str_eq(t, "h6")
}

fn is_block_tag(t: &str) -> (r: bool)
    ensures
        r == is_block(t@),
{
    str_eq(t, "p") || str_eq(t, "div") || str_eq(t, "section") || str_eq(t, "article") || str_eq(t, "main")
        || str_eq(t, "aside") || str_eq(t, "header") || str_eq(t, "footer") || str_eq(t, "nav") || str_eq(t, "ul")
        || str_eq(t, "ol") || str_eq(t, "dl") || str_eq(t, "li") || str_eq(t, "dt") || str_eq(t, "dd")
        || str_eq(t, "blockquote") || str_eq(t, "pre") || str_eq(t, "figure") || str_eq(t, "form")
        || str_eq(t, "fieldset") || str_eq(t, "table") || str_eq(t, "thead") || str_eq(t, "tbody")
        || str_eq(t, "tfoot") || str_eq(t, "tr") || str_eq(t, "th") || str_eq(t, "td") || str_eq(t, "br")
        || str_eq(t, "hr")
}

/// Plain text of `children`, each text node followed by a space, skipping
/// `<script>` and `<style>`.
pub fn collect_text(nodes: &[Node], children: &[usize]) -> (r: String)
    ensures
        r@ == ct_list(nodes_view(nodes@), children@, nodes@.len() as nat),
{
    let mut out = String::new();
    ct_into(nodes, children, 0, nodes.len(), &mut out);
    assert(children@.skip(0) =~= children@);
    out
}

fn ct_into(nodes: &[Node], ids: &[usize], start: usize, f: usize, out: &mut String)
    requires
        start <= ids@.len(),
    ensures
        final(out)@ == old(out)@ + ct_list(nodes_view(nodes@), ids@.skip(start as int), f as nat),
    decreases f, ids@.len() - start + 1,
{
    let ghost o0 = out@;
    let ghost s = ids@.skip(start as int);
    if start >= ids.len() {
        assert(s.len() == 0);
        assert(o0 + Seq::<char>::empty() =~= o0);
        return;
    }
    let id = ids[start];
    if id < nodes.len() {
        let node = &nodes[id];
        match &node.data {
            NodeData::Text { content } => {
                out.append(content.as_str());
                out.append(" ");
            },
            NodeData::Element { tag_name, .. } => {
                if !(str_eq(tag_name.as_str(), "script") || str_eq(tag_name.as_str(), "style")) && f > 0 {
                    ct_into(nodes, node.children.as_slice(), 0, f - 1, out);
                    assert(node.children@.skip(0) =~= node.children@);
                }
            },
            _ => {
                if f > 0 {
                    ct_into(nodes, node.children.as_slice(), 0, f - 1, out);
                    assert(node.children@.skip(0) =~= node.children@);
                }
            },
        }
    }
    let ghost mid = out@;
    assert(mid =~= o0 + ct_piece(nodes_view(nodes@), id, f as nat));
    ct_into(nodes, ids, start + 1, f, out);
    assert(s.drop_first() =~= ids@.skip(start + 1));
    assert(out@ =~= o0 + ct_list(nodes_view(nodes@), s, f as nat));
}

/// Resolves a possibly relative `href` against `base`.
pub fn resolve_url(base: &str, href: &str) -> (r: String)
    ensures
        r@ == resolve_url_spec(base@, href@),
{
    if str_starts_with(href, "http://") || str_starts_with(href, "https://") {
        return href.to_owned();
    }
    if str_starts_with(href, "//") {
        let mut t = String::new();
        t.append("https:");
        t.append(href);
        return t;
    }
    match join_url(base, href) {
        Some(t) => t,
        None => href.to_owned(),
    }
}


/// Walks the document from `start_id` and renders it: the lines (with a
/// References section for the links), the link table (one entry per target,
/// in the order first met; every link span carries the index of its
/// target's entry), the title (or `base_url` when the title is blank) and the
/// number of inline scripts of the document. The laws of the link table are
/// `lemma_walk_links_consistent`, `lemma_anchor_names_its_target` and
/// `lemma_walk_keeps_links`.
pub fn walk_document(nodes: &[Node], start_id: usize, base_url: &str) -> (r: WalkResult)
    ensures
        ({
            let w = walked(nodes_view(nodes@), start_id, base_url@);
            &&& links_view(r.links@) == w.links
            &&& lines_view(r.lines@) == with_references(w.lines, w.links)
            &&& r.title@ == title_spec(nodes_view(nodes@), base_url@)
            &&& r.script_count == inline_script_count(nodes_view(nodes@))
        }),
{
    let mut ctx = WalkCtx {
        nodes,
        base_url,
        links: Vec::new(),
        lines: Vec::new(),
        current: Vec::new(),
        in_heading: false,
        in_a: None,
    };
    assert(links_view(ctx.links@) =~= Seq::empty());
    assert(lines_view(ctx.lines@) =~= Seq::empty());
    assert(line_view(ctx.current@) =~= Seq::empty());
    assert(ctx.st() == start_state());
    ctx.walk(start_id, nodes.len());
    ctx.flush_line();
    let title = find_title(nodes, base_url);
    let scripts = inline_scripts(nodes);
    let links = ctx.links;
    let mut lines = ctx.lines;
    if links.len() > 0 {
        let ghost l0 = lines_view(lines@);
        let ghost empty_line: Seq<SpanView> = Seq::empty();
        let ghost heading_line: Seq<SpanView> = seq![SpanView { text: "References"@, link_idx: None, heading: true }];
        let blank1: RichLine = Vec::new();
        assert(line_view(blank1@) =~= empty_line);
        lines.push(blank1);
        assert(lines_view(lines@) =~= l0.push(empty_line));
        let mut refs: RichLine = Vec::new();
        refs.push(RichSpan { text: "References".to_owned(), link_idx: None, heading: true });
        assert(line_view(refs@) =~= heading_line);
        lines.push(refs);
        assert(lines_view(lines@) =~= l0.push(empty_line).push(heading_line));
        let blank2: RichLine = Vec::new();
        assert(line_view(blank2@) =~= empty_line);
        lines.push(blank2);
        let ghost l1 = lines_view(lines@);
        assert(l1 =~= l0.push(empty_line).push(heading_line).push(empty_line));
        assert(l1 =~= l0 + seq![empty_line, heading_line, empty_line]);
        let mut i: usize = 0;
        while i < links.len()
            invariant
                i <= links@.len(),
                lines_view(lines@) == l1 + Seq::new(i as nat, |j: int| ref_line(links_view(links@), j)),
            decreases links@.len() - i,
        {
            let mut label = String::new();
            label.append("   [");
            let d = decimal_string(i as u128 + 1);
            label.append(d.as_str());
            label.append("] ");
            let mut line: RichLine = Vec::new();
            line.push(RichSpan { text: label, link_idx: None, heading: false });
            line.push(RichSpan { text: links[i].href.clone(), link_idx: Some(i), heading: false });
            assert(line_view(line@) =~= ref_line(links_view(links@), i as int));
            let ghost before = lines_view(lines@);
            lines.push(line);
            assert(lines_view(lines@) =~= before.push(ref_line(links_view(links@), i as int)));
            i = i + 1;
            assert(lines_view(lines@) =~= l1 + Seq::new(i as nat, |j: int| ref_line(links_view(links@), j)));
        }
    }
    WalkResult { lines, links, title, script_count: scripts.len() }
}

fn title_index(nodes: &[Node], start: usize) -> (r: Option<usize>)
    requires
        start <= nodes@.len(),
    ensures
        r matches Some(j) ==> title_slot(nodes_view(nodes@), start as int) == Some(j as int) && j < nodes@.len(),
        r is None ==> title_slot(nodes_view(nodes@), start as int) is None,
    decreases nodes@.len() - start,
{
    if start >= nodes.len() {
        return None;
    }
    let is_title = match nodes[start].tag_name() {
        Some(t) => str_eq(t, "title"),
        None => false,
    };
    if is_title {
        Some(start)
    } else {
        title_index(nodes, start + 1)
    }
}

fn find_title(nodes: &[Node], base_url: &str) -> (r: String)
    ensures
        r@ == title_spec(nodes_view(nodes@), base_url@),
{
    let found = title_index(nodes, 0);
    let raw = match found {
        Some(j) => collect_text(nodes, nodes[j].children.as_slice()),
        None => String::new(),
    };
    let t = trim_str(raw.as_str());
    if t.as_str().is_empty() {
        base_url.to_owned()
    } else {
        t
    }
}


} // verus!

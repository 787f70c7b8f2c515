//! HTML parsing: html5ever builds a tree of the page, which is copied into
//! the arena document level by level, down to `MAX_WALK_DEPTH` levels.
use vstd::prelude::*;
use html5ever::tendril::TendrilSink;
use markup5ever_rcdom::Node as RcNode;
use markup5ever_rcdom::NodeData as RcData;
use html5ever::Attribute as HtmlAttr;
use crate::dom::document::{append_spec, create_spec, doc_wf, fresh, inject_base_spec, DocView, Document};
use crate::dom::node::{attrs_view, Attribute, DataView, NodeData, NodeId};
use crate::error::BrowserResult;
use crate::text::{
    append_range, ascii_lower, ascii_lower_str, char_bytes_exec, chars_of, find_from, find_from_exec, lemma_find_from,
    to_lower, unicode_lower, utf8_len,
};

verus! {

#[verifier::external_type_specification]
#[verifier::external_body]
pub struct ExRcNode(RcNode);

#[verifier::external_type_specification]
#[verifier::external_body]
pub struct ExHtmlAttr(HtmlAttr);

/// Nodes deeper than this below the document are not copied: pages that nest
/// wrappers by the hundred are cut here instead of exhausting the stack.
pub const MAX_WALK_DEPTH: usize = 512;

/// The parser's tree, as html5ever gave it, laid out flat: node `i` holds
/// `data[i]` (element names not yet lower-cased) and its children are the
/// nodes listed in `kids[i]`, in order. Node 0 is the document node.
pub struct RawTree {
    pub data: Vec<NodeData>,
    pub kids: Vec<Vec<usize>>,
}

pub struct RawTreeView {
    pub data: Seq<DataView>,
    pub kids: Seq<Seq<usize>>,
}

impl View for RawTree {
    type V = RawTreeView;

    open spec fn view(&self) -> RawTreeView {
        RawTreeView {
            data: self.data@.map_values(|d: NodeData| d@),
            kids: self.kids@.map_values(|v: Vec<usize>| v@),
        }
    }
}

/// The tree that html5ever's `parse_document` builds for `html` (into an
/// `RcDom`), numbered in document order from its document node.
pub uninterp spec fn html_tree(html: Seq<char>) -> RawTreeView;

/// Parses `html` with `html5ever::parse_document` into a
/// `markup5ever_rcdom::RcDom` and copies the tree out; the contract names the
/// tree and says nothing more of it.
#[verifier::external_body]
fn parse_html_tree(html: &str) -> (r: RawTree)
    ensures
        r@ == html_tree(html@),
{
    let opts = html5ever::ParseOpts::default();
    let dom = html5ever::parse_document(markup5ever_rcdom::RcDom::default(), opts).one(html.to_string());
    raw_tree(&dom.document)
}

/// Copies an rcdom node and everything below it, node by node with a work
/// stack, numbering the nodes in document order.
#[verifier::external_body]
fn raw_tree(root: &std::rc::Rc<RcNode>) -> RawTree {
    let mut t = RawTree { data: Vec::new(), kids: Vec::new() };
    let mut stack: Vec<(std::rc::Rc<RcNode>, Option<usize>)> = vec![(root.clone(), None)];
    while let Some((h, parent)) = stack.pop() {
        let i = t.data.len();
        t.data.push(raw_data(&h));
        t.kids.push(Vec::new());
        if let Some(p) = parent {
            t.kids[p].push(i);
        }
        stack.extend(h.children.borrow().iter().rev().map(|c| (c.clone(), Some(i))));
    }
    t
}

/// Copies the data of an rcdom node, one variant for one.
#[verifier::external_body]
fn raw_data(h: &std::rc::Rc<RcNode>) -> NodeData {
    match &h.data {
        RcData::Document => NodeData::Document,
        RcData::Doctype { name, public_id, system_id } => NodeData::Doctype {
            name: name.to_string(), public_id: public_id.to_string(), system_id: system_id.to_string() },
        RcData::Text { contents } => NodeData::Text { content: contents.borrow().to_string() },
        RcData::Comment { contents } => NodeData::Comment { content: contents.to_string() },
        RcData::Element { name, attrs, .. } => NodeData::Element {
            tag_name: name.local.to_string(), namespace: name.ns.to_string(), attrs: raw_attrs(&attrs.borrow()) },
        RcData::ProcessingInstruction { target, contents } => NodeData::ProcessingInstruction {
            target: target.to_string(), data: contents.to_string() },
    }
}

/// Copies html5ever attributes as local name and value, in order.
#[verifier::external_body]
fn raw_attrs(attrs: &Vec<HtmlAttr>) -> Vec<Attribute> {
    attrs.iter().map(|a| Attribute { name: a.name.local.to_string(), value: a.value.to_string() }).collect()
}

/// The node data stored for a parsed node: element names in lower case.
pub open spec fn lowered(d: DataView) -> DataView {
    match d {
        DataView::Element { tag_name, namespace, attrs } => DataView::Element {
            tag_name: ascii_lower(tag_name),
            namespace,
            attrs,
        },
        _ => d,
    }
}

/// The document after copying the children of node `i` of `t` under
/// `parent`, node `i` being `depth` levels below the document node.
pub open spec fn build_walk(d: DocView, t: RawTreeView, i: int, parent: NodeId, depth: nat) -> DocView
    decreases t.data.len() - i, 1int, 0int,
{
    if depth > MAX_WALK_DEPTH || i < 0 || i >= t.data.len() || i >= t.kids.len() {
        d
    } else {
        build_kids(d, t, i, t.kids[i], parent, depth)
    }
}

/// Copies the children `kids` of node `i` in order; a nested document node
/// is not copied, its children go to `parent` at the same depth. A child that
/// does not come after `i` in the tree's numbering is skipped.
pub open spec fn build_kids(d: DocView, t: RawTreeView, i: int, kids: Seq<usize>, parent: NodeId, depth: nat) -> DocView
    decreases t.data.len() - i, 0int, kids.len(),
{
    if kids.len() == 0 || i < 0 || i >= t.data.len() {
        d
    } else {
        let d1 = build_kids(d, t, i, kids.drop_last(), parent, depth);
        let c = kids.last() as int;
        if !(i < c && c < t.data.len()) {
            d1
        } else if t.data[c] is Document {
            build_walk(d1, t, c, parent, depth)
        } else {
            let (d2, id) = create_spec(d1, lowered(t.data[c]));
            build_walk(append_spec(d2, parent, id), t, c, id, depth + 1)
        }
    }
}

/// An empty document for `url`.
pub open spec fn url_doc(url: Seq<char>) -> DocView {
    DocView { nodes: seq![fresh(0, DataView::Document)], url, free: Seq::empty() }
}

/// The document that `HtmlParser::parse` gives for `html` at `url`.
pub open spec fn parsed_doc(html: Seq<char>, url: Seq<char>) -> DocView {
    inject_base_spec(build_walk(url_doc(url), html_tree(html), 0, 0, 0), url)
}

fn lowered_data(d: &NodeData) -> (r: NodeData)
    ensures
        r@ == lowered(d@),
{
    match d {
        NodeData::Element { tag_name, namespace, attrs } => {
            let a = attrs.clone();
            assert(attrs_view(a@) =~= attrs_view(attrs@));
            NodeData::Element { tag_name: ascii_lower_str(tag_name.as_str()), namespace: namespace.clone(), attrs: a }
        },
        _ => d.clone(),
    }
}

/// Copies the children of node `i` of `t` under `parent`, node `i` being
/// `depth` levels down.
fn walk_raw(doc: &mut Document, t: &RawTree, i: usize, parent: NodeId, depth: usize)
    requires
        doc_wf(old(doc)@),
        parent < old(doc)@.nodes.len(),
    ensures
        final(doc)@ == build_walk(old(doc)@, t@, i as int, parent, depth as nat),
        doc_wf(final(doc)@),
        final(doc)@.nodes.len() >= old(doc)@.nodes.len(),
    decreases t.data@.len() - i,
{
    if depth > MAX_WALK_DEPTH || i >= t.data.len() || i >= t.kids.len() {
        return;
    }
    let ghost d0 = doc@;
    let ghost tv = t@;
    let ghost kids = tv.kids[i as int];
    let kv = &t.kids[i];
    assert(kv@ == kids);
    let mut k: usize = 0;
    assert(kids.take(0) =~= Seq::<usize>::empty());
    while k < kv.len()
        invariant
            k <= kv@.len(),
            kv@ == kids,
            tv == t@,
            i < t.data@.len(),
            i < t.kids@.len(),
            depth <= MAX_WALK_DEPTH,
            doc_wf(doc@),
            parent < d0.nodes.len(),
            doc@.nodes.len() >= d0.nodes.len(),
            doc@ == build_kids(d0, tv, i as int, kids.take(k as int), parent, depth as nat),
        decreases kv@.len() - k,
    {
        let c = kv[k];
        let ghost ks = kids.take(k as int + 1);
        assert(ks.drop_last() =~= kids.take(k as int));
        assert(ks.last() == c);
        if i < c && c < t.data.len() {
            assert(tv.data[c as int] == t.data@[c as int]@);
            match &t.data[c] {
                NodeData::Document => {
                    walk_raw(doc, t, c, parent, depth);
                },
                _ => {
                    let data = lowered_data(&t.data[c]);
                    let id = doc.create_node(data);
                    doc.append_child(parent, id);
                    walk_raw(doc, t, c, id, depth + 1);
                },
            }
        }
        k = k + 1;
    }
    assert(kids.take(kids.len() as int) =~= kids);
}

/// `<base href="base">`.
pub open spec fn base_tag(base: Seq<char>) -> Seq<char> {
    "<base href=\""@ + base + "\">"@
}

/// The character position of `s` at which byte offset `b` of its UTF-8
/// text falls, when a character starts there (or `b` is the end).
pub open spec fn char_at_byte(s: Seq<char>, b: int) -> Option<int> {
    if exists|k: int| 0 <= k <= s.len() && #[trigger] utf8_len(s.take(k)) == b {
        Some(choose|k: int| 0 <= k <= s.len() && #[trigger] utf8_len(s.take(k)) == b)
    } else {
        None
    }
}

/// Where the text-level insertion goes, as a byte offset into the page text,
/// and whether a `<head>` must be wrapped round the tag: right after the
/// first `<head>`, else right after the `<html ...>` start tag. Tags are
/// found in the text lower-cased by the Unicode rules, and the offset found
/// there is used on the text as written. `None` puts a `<head>` in front.
pub open spec fn base_insert_at(html: Seq<char>) -> Option<(int, bool)> {
    let lower = unicode_lower(html);
    match find_from(lower, "<head>"@, 0) {
        Some(p) => Some((utf8_len(lower.take(p)) + 6int, false)),
        None => match find_from(lower, "<html"@, 0) {
            Some(p) => match find_from(lower, ">"@, p) {
                Some(e) => Some((utf8_len(lower.take(e)) + 1int, true)),
                None => None,
            },
            None => None,
        },
    }
}

/// The insertion can be made: its offset falls at the start of a character
/// of the text as written (slicing the text anywhere else would panic).
pub open spec fn text_base_ok(html: Seq<char>) -> bool {
    match base_insert_at(html) {
        Some((b, _)) => char_at_byte(html, b) is Some,
        None => true,
    }
}

/// The page text with `<base href="base">` put in; see `base_insert_at`.
pub open spec fn inject_base_text(html: Seq<char>, base: Seq<char>) -> Seq<char> {
    let tag = base_tag(base);
    let wrapped = "<head>"@ + tag + "</head>"@;
    match base_insert_at(html) {
        Some((b, w)) => match char_at_byte(html, b) {
            Some(k) => html.take(k) + (if w {
                wrapped
            } else {
                tag
            }) + html.skip(k),
            None => html,
        },
        None => wrapped + html,
    }
}

proof fn lemma_utf8_grows(s: Seq<char>, j: int, k: int)
    requires
        0 <= j < k <= s.len(),
    ensures
        utf8_len(s.take(j)) < utf8_len(s.take(k)),
    decreases k - j,
{
    assert(s.take(k).drop_last() =~= s.take(k - 1));
    if j < k - 1 {
        lemma_utf8_grows(s, j, k - 1);
    }
}

/// The character position at byte offset `b`; see `char_at_byte`.
fn char_at_byte_exec(s: &[char], b: u128) -> (r: Option<usize>)
    ensures
        match r {
            Some(k) => char_at_byte(s@, b as int) == Some(k as int),
            None => char_at_byte(s@, b as int) is None,
        },
{
    let mut acc: u128 = 0;
    let mut i: usize = 0;
    assert(s@.take(0) =~= Seq::<char>::empty());
    while i < s.len() && acc < b
        invariant
            i <= s@.len(),
            acc == utf8_len(s@.take(i as int)),
            acc <= 4 * i,
            forall|j: int| 0 <= j < i ==> #[trigger] utf8_len(s@.take(j)) < b,
        decreases s@.len() - i,
    {
        assert(s@.take(i + 1).drop_last() =~= s@.take(i as int));
        acc = acc + char_bytes_exec(s[i]) as u128;
        i = i + 1;
    }
    if acc == b {
        proof {
            assert(utf8_len(s@.take(i as int)) == b);
            let k = choose|k: int| 0 <= k <= s@.len() && #[trigger] utf8_len(s@.take(k)) == b;
            if k < i {
                assert(utf8_len(s@.take(k)) < b);
            }
            if k > i {
                lemma_utf8_grows(s@, i as int, k);
            }
        }
        Some(i)
    } else {
        assert forall|k: int| 0 <= k <= s@.len() implies #[trigger] utf8_len(s@.take(k)) != b by {
            if k > i {
                lemma_utf8_grows(s@, i as int, k);
            }
            if k == i {
                if i == s@.len() {
                    assert(acc < b || acc > b);
                }
            }
        }
        None
    }
}

/// UTF-8 length of the first `n` characters of `v`.
fn prefix_bytes(v: &[char], n: usize) -> (r: u128)
    requires
        n <= v@.len(),
    ensures
        r == utf8_len(v@.take(n as int)),
        r <= 4 * n,
{
    let mut acc: u128 = 0;
    let mut i: usize = 0;
    assert(v@.take(0) =~= Seq::<char>::empty());
    while i < n
        invariant
            i <= n <= v@.len(),
            acc == utf8_len(v@.take(i as int)),
            acc <= 4 * i,
        decreases n - i,
    {
        assert(v@.take(i + 1).drop_last() =~= v@.take(i as int));
        acc = acc + char_bytes_exec(v[i]) as u128;
        i = i + 1;
    }
    acc
}

pub struct HtmlParser;

impl HtmlParser {
    pub fn new() -> (r: Self) {
        HtmlParser
    }

    /// Parses `html` into a document for `url`, with a `<base href=url>` put at
    /// the front of `<head>` when it has none. Parsing always succeeds.
    pub fn parse(&self, html: &str, url: &str) -> (r: BrowserResult<Document>)
        ensures
            r matches Ok(d) && d@ == parsed_doc(html@, url@) && doc_wf(d@),
    {
        let tree = parse_html_tree(html);
        let mut doc = Document::with_url(url);
        assert(doc@ =~= url_doc(url@));
        walk_raw(&mut doc, &tree, 0, 0, 0);
        doc.inject_base(url);
        Ok(doc)
    }

    /// Puts `<base href="base_url">` into the page text; see
    /// `inject_base_text`. `None` where the place found in the lower-cased
    /// text does not start a character of the text as written.
    pub fn inject_base_checked(&self, html: &str, base_url: &str) -> (r: Option<String>)
        ensures
            match r {
                Some(t) => text_base_ok(html@) && t@ == inject_base_text(html@, base_url@),
                None => !text_base_ok(html@),
            },
    {
        proof {
            reveal_strlit("<head>");
            reveal_strlit("<html");
            reveal_strlit(">");
        }
        let mut tag = String::new();
        tag.append("<base href=\"");
        tag.append(base_url);
        tag.append("\">");
        let h = chars_of(html);
        let lower_s = to_lower(html);
        let lower = chars_of(lower_s.as_str());
        let head = chars_of("<head>");
        let html_open = chars_of("<html");
        let gt = chars_of(">");
        proof {
            lemma_find_from(lower@, head@, 0);
        }
        let place: Option<(u128, bool)> = match find_from_exec(lower.as_slice(), head.as_slice(), 0) {
            Some(p) => Some((prefix_bytes(lower.as_slice(), p) + 6, false)),
            None => match find_from_exec(lower.as_slice(), html_open.as_slice(), 0) {
                Some(p) => {
                    proof {
                        lemma_find_from(lower@, html_open@, 0);
                        lemma_find_from(lower@, gt@, p as int);
                    }
                    match find_from_exec(lower.as_slice(), gt.as_slice(), p) {
                        Some(e) => Some((prefix_bytes(lower.as_slice(), e) + 1, true)),
                        None => None,
                    }
                },
                None => None,
            },
        };
        let mut out = String::new();
        match place {
            Some((b, wrap)) => {
                let k = match char_at_byte_exec(h.as_slice(), b) {
                    Some(k) => k,
                    None => return None,
                };
                proof {
                    let kk = choose|k: int| 0 <= k <= html@.len() && #[trigger] utf8_len(html@.take(k)) == b as int;
                    assert(kk == k);
                }
                append_range(&mut out, h.as_slice(), 0, k);
                if wrap {
                    out.append("<head>");
                    out.append(tag.as_str());
                    out.append("</head>");
                } else {
                    out.append(tag.as_str());
                }
                append_range(&mut out, h.as_slice(), k, h.len());
                assert(h@.subrange(0, k as int) =~= html@.take(k as int));
                assert(h@.subrange(k as int, h@.len() as int) =~= html@.skip(k as int));
            },
            None => {
                out.append("<head>");
                out.append(tag.as_str());
                out.append("</head>");
                out.append(html);
            },
        }
        Some(out)
    }

    /// Puts `<base href="base_url">` into the page text; see
    /// `inject_base_text`. Pages on which the insertion would slice the text
    /// inside a character are left out; `inject_base_checked` takes any page.
    pub fn inject_base(&self, html: &str, base_url: &str) -> (r: String)
        requires
            text_base_ok(html@),
        ensures
            r@ == inject_base_text(html@, base_url@),
    {
        match self.inject_base_checked(html, base_url) {
            Some(t) => t,
            None => String::new(),
        }
    }
}

} // verus!

//! HTML serialization of the arena.
use vstd::prelude::*;
use vstd::string::StringExecFns;
use crate::dom::document::Document;
use crate::dom::node::{AttrView, DataView, NodeData, NodeId, NodeView, Attribute, attrs_view, nodes_view, tag_of};
use crate::error::BrowserResult;
use crate::text::{chars_of, str_eq};

verus! {

pub open spec fn esc_text_char(c: char) -> Seq<char> {
    if c == '&' {
        "&amp;"@
    } else if c == '<' {
        "&lt;"@
    } else if c == '>' {
        "&gt;"@
    } else {
        seq![c]
    }
}

/// Text-node escaping: `&`, `<` and `>` become entities.
pub open spec fn esc_text(s: Seq<char>) -> Seq<char>
    decreases s.len(),
{
    if s.len() == 0 {
        Seq::empty()
    } else {
        esc_text(s.drop_last()) + esc_text_char(s.last())
    }
}

pub open spec fn esc_attr_char(c: char) -> Seq<char> {
    if c == '&' {
        "&amp;"@
    } else if c == '"' {
        "&quot;"@
    } else if c == '<' {
        "&lt;"@
    } else {
        seq![c]
    }
}

/// Attribute-value escaping: `&`, `"` and `<` become entities.
pub open spec fn esc_attr(s: Seq<char>) -> Seq<char>
    decreases s.len(),
{
    if s.len() == 0 {
        Seq::empty()
    } else {
        esc_attr(s.drop_last()) + esc_attr_char(s.last())
    }
}

/// Elements written without children or a closing tag.
pub open spec fn is_void(t: Seq<char>) -> bool {
    ||| t == "area"@
    ||| t == "base"@
    ||| t == "br"@
    ||| t == "col"@
    ||| t == "embed"@
    ||| t == "hr"@
    ||| t == "img"@
    ||| t == "input"@
    ||| t == "link"@
    ||| t == "meta"@
    ||| t == "param"@
    ||| t == "source"@
    ||| t == "track"@
    ||| t == "wbr"@
}

/// Elements whose text is written unescaped.
pub open spec fn is_raw_text(t: Seq<char>) -> bool {
    t == "script"@ || t == "style"@
}

pub open spec fn attrs_ser(attrs: Seq<AttrView>) -> Seq<char>
    decreases attrs.len(),
{
    if attrs.len() == 0 {
        Seq::empty()
    } else {
        attrs_ser(attrs.drop_last()) + " "@ + attrs.last().name + "=\""@ + esc_attr(attrs.last().value)
            + "\""@
    }
}

pub open spec fn in_raw(nodes: Seq<NodeView>, n: NodeView) -> bool {
    match n.parent {
        Some(p) => p < nodes.len() && match tag_of(nodes[p as int].data) {
            Some(t) => is_raw_text(t),
            None => false,
        },
        None => false,
    }
}

/// The markup of node `id`; children more than `f` levels down are left out.
pub open spec fn ser(nodes: Seq<NodeView>, id: NodeId, f: nat) -> Seq<char>
    decreases f, 0nat,
{
    if id >= nodes.len() {
        Seq::empty()
    } else {
        let n = nodes[id as int];
        let kids = if f == 0 {
            Seq::empty()
        } else {
            ser_list(nodes, n.children, (f - 1) as nat)
        };
        match n.data {
            DataView::Document => kids,
            DataView::Doctype { name, .. } => "<!DOCTYPE "@ + name + ">"@,
            DataView::Text { content } => if in_raw(nodes, n) {
                content
            } else {
                esc_text(content)
            },
            DataView::Comment { content } => "<!--"@ + content + "-->"@,
            DataView::ProcessingInstruction { target, data } => "<?"@ + target + " "@ + data + "?>"@,
            DataView::Element { tag_name, attrs, .. } => if is_void(tag_name) {
                "<"@ + tag_name + attrs_ser(attrs) + ">"@
            } else {
                "<"@ + tag_name + attrs_ser(attrs) + ">"@ + kids + "</"@ + tag_name + ">"@
            },
        }
    }
}

pub open spec fn ser_list(nodes: Seq<NodeView>, ids: Seq<NodeId>, f: nat) -> Seq<char>
    decreases f, ids.len() + 1,
{
    if ids.len() == 0 {
        Seq::empty()
    } else {
        ser(nodes, ids[0], f) + ser_list(nodes, ids.drop_first(), f)
    }
}

fn push_escaped_text(buf: &mut String, s: &str)
    ensures
        final(buf)@ == old(buf)@ + esc_text(s@),
{
    let v = chars_of(s);
    let ghost b0 = buf@;
    let mut i: usize = 0;
    while i < v.len()
        invariant
            i <= v@.len(),
            v@ == s@,
            buf@ == b0 + esc_text(v@.take(i as int)),
        decreases v@.len() - i,
    {
        let c = v[i];
        if c == '&' {
            buf.append("&amp;");
        } else if c == '<' {
            buf.append("&lt;");
        } else if c == '>' {
            buf.append("&gt;");
        } else {
            let one = [c];
            buf.append(crate::text::string_from(&one).as_str());
            assert(one@ =~= seq![c]);
        }
        i = i + 1;
        assert(v@.take(i as int).drop_last() =~= v@.take(i - 1));
        assert(buf@ =~= b0 + esc_text(v@.take(i as int)));
    }
    assert(v@.take(i as int) =~= v@);
}

fn push_escaped_attr(buf: &mut String, s: &str)
    ensures
        final(buf)@ == old(buf)@ + esc_attr(s@),
{
    let v = chars_of(s);
    let ghost b0 = buf@;
    let mut i: usize = 0;
    while i < v.len()
        invariant
            i <= v@.len(),
            v@ == s@,
            buf@ == b0 + esc_attr(v@.take(i as int)),
        decreases v@.len() - i,
    {
        let c = v[i];
        if c == '&' {
            buf.append("&amp;");
        } else if c == '"' {
            buf.append("&quot;");
        } else if c == '<' {
            buf.append("&lt;");
        } else {
            let one = [c];
            buf.append(crate::text::string_from(&one).as_str());
            assert(one@ =~= seq![c]);
        }
        i = i + 1;
        assert(v@.take(i as int).drop_last() =~= v@.take(i - 1));
        assert(buf@ =~= b0 + esc_attr(v@.take(i as int)));
    }
    assert(v@.take(i as int) =~= v@);
}

/// Text content escaped for HTML: `&`, `<`, `>`.
pub fn escape_text(s: &str) -> (r: String)
    ensures
        r@ == esc_text(s@),
{
    let mut out = String::new();
    push_escaped_text(&mut out, s);
    out
}

/// An attribute value escaped for a double-quoted attribute: `&`, `"`, `<`.
pub fn escape_attr(s: &str) -> (r: String)
    ensures
        r@ == esc_attr(s@),
{
    let mut out = String::new();
    push_escaped_attr(&mut out, s);
    out
}

pub fn is_void_tag(t: &str) -> (r: bool)
    ensures
        r == is_void(t@),
{
    str_eq(t, "area") || str_eq(t, "base") || str_eq(t, "br") || str_eq(t, "col") || str_eq(t, "embed")
        || str_eq(t, "hr") || str_eq(t, "img") || str_eq(t, "input") || str_eq(t, "link") || str_eq(t, "meta")
        || str_eq(t, "param") || str_eq(t, "source") || str_eq(t, "track") || str_eq(t, "wbr")
}

fn push_attrs(buf: &mut String, attrs: &Vec<Attribute>)
    ensures
        final(buf)@ == old(buf)@ + attrs_ser(attrs_view(attrs@)),
{
    let ghost b0 = buf@;
    let mut i: usize = 0;
    while i < attrs.len()
        invariant
            i <= attrs@.len(),
            buf@ == b0 + attrs_ser(attrs_view(attrs@).take(i as int)),
        decreases attrs@.len() - i,
    {
        buf.append(" ");
        buf.append(attrs[i].name.as_str());
        buf.append("=\"");
        push_escaped_attr(buf, attrs[i].value.as_str());
        buf.append("\"");
        i = i + 1;
        assert(attrs_view(attrs@).take(i as int).drop_last() =~= attrs_view(attrs@).take(i - 1));
        assert(buf@ =~= b0 + attrs_ser(attrs_view(attrs@).take(i as int)));
    }
    assert(attrs_view(attrs@).take(i as int) =~= attrs_view(attrs@));
}

fn parent_is_raw(doc: &Document, parent: Option<NodeId>) -> (r: bool)
    ensures
        r == (match parent {
            Some(p) => p < doc@.nodes.len() && match tag_of(doc@.nodes[p as int].data) {
                Some(t) => is_raw_text(t),
                None => false,
            },
            None => false,
        }),
{
    match parent {
        Some(p) => match doc.get(p) {
            Some(pn) => match pn.tag_name() {
                Some(t) => str_eq(t, "script") || str_eq(t, "style"),
                None => false,
            },
            None => false,
        },
        None => false,
    }
}

/// Appends the markup of node `id` to `buf`.
pub(crate) fn write_node(doc: &Document, id: NodeId, buf: &mut String, f: usize)
    ensures
        final(buf)@ == old(buf)@ + ser(doc@.nodes, id, f as nat),
    decreases f, 0nat,
{
    let ghost nv = doc@.nodes;
    let ghost b0 = buf@;
    let node = match doc.get(id) {
        Some(n) => n,
        None => {
            assert(b0 + Seq::<char>::empty() =~= b0);
            return;
        },
    };
    match &node.data {
        NodeData::Document => {
            if f > 0 {
                write_list(doc, &node.children, 0, buf, f - 1);
                assert(node.children@.skip(0) =~= node.children@);
            } else {
                assert(b0 + Seq::<char>::empty() =~= b0);
            }
        },
        NodeData::Doctype { name, .. } => {
            buf.append("<!DOCTYPE ");
            buf.append(name.as_str());
            buf.append(">");
            assert(buf@ =~= b0 + ("<!DOCTYPE "@ + name@ + ">"@));
        },
        NodeData::Text { content } => {
            if parent_is_raw(doc, node.parent) {
                buf.append(content.as_str());
            } else {
                push_escaped_text(buf, content.as_str());
            }
        },
        NodeData::Comment { content } => {
            buf.append("<!--");
            buf.append(content.as_str());
            buf.append("-->");
            assert(buf@ =~= b0 + ("<!--"@ + content@ + "-->"@));
        },
        NodeData::ProcessingInstruction { target, data } => {
            buf.append("<?");
            buf.append(target.as_str());
            buf.append(" ");
            buf.append(data.as_str());
            buf.append("?>");
            assert(buf@ =~= b0 + ("<?"@ + target@ + " "@ + data@ + "?>"@));
        },
        NodeData::Element { tag_name, attrs, .. } => {
            buf.append("<");
            buf.append(tag_name.as_str());
            push_attrs(buf, attrs);
            if is_void_tag(tag_name.as_str()) {
                buf.append(">");
                assert(buf@ =~= b0 + ("<"@ + tag_name@ + attrs_ser(attrs_view(attrs@)) + ">"@));
                return;
            }
            buf.append(">");
            let ghost b1 = buf@;
            if f > 0 {
                write_list(doc, &node.children, 0, buf, f - 1);
                assert(node.children@.skip(0) =~= node.children@);
            }
            let ghost b2 = buf@;
            buf.append("</");
            buf.append(tag_name.as_str());
            buf.append(">");
            assert(buf@ =~= b0 + ("<"@ + tag_name@ + attrs_ser(attrs_view(attrs@)) + ">"@ + (b2.subrange(b1.len() as int, b2.len() as int)) + "</"@ + tag_name@ + ">"@));
            assert(b2.subrange(b1.len() as int, b2.len() as int) =~= (if f == 0 {
                Seq::empty()
            } else {
                ser_list(nv, nv[id as int].children, (f - 1) as nat)
            }));
        },
    }
}

fn write_list(doc: &Document, ids: &Vec<NodeId>, start: usize, buf: &mut String, f: usize)
    requires
        start <= ids@.len(),
    ensures
        final(buf)@ == old(buf)@ + ser_list(doc@.nodes, ids@.skip(start as int), f as nat),
    decreases f, ids@.len() - start + 1,
{
    let ghost s = ids@.skip(start as int);
    let ghost b0 = buf@;
    if start >= ids.len() {
        assert(s.len() == 0);
        assert(b0 + Seq::<char>::empty() =~= b0);
        return;
    }
    write_node(doc, ids[start], buf, f);
    write_list(doc, ids, start + 1, buf, f);
    assert(s.drop_first() =~= ids@.skip(start + 1));
    assert(buf@ =~= b0 + ser_list(doc@.nodes, s, f as nat));
}

/// Text directly inside a `<style>` or `<script>` element is written exactly as it
/// stands: no character of it is turned into an entity, whatever the depth limit.
pub proof fn lemma_raw_text_unescaped(nodes: Seq<NodeView>, id: NodeId, p: NodeId, f: nat)
    requires
        id < nodes.len(),
        p < nodes.len(),
        nodes[id as int].parent == Some(p),
        nodes[id as int].data is Text,
        tag_of(nodes[p as int].data) == Some("style"@) || tag_of(nodes[p as int].data) == Some(
            "script"@,
        ),
    ensures
        ser(nodes, id, f) == nodes[id as int].data->Text_content,
{
}

/// A `<style>` element whose only child is a text node is written as its start tag,
/// the text unchanged, and its end tag.
pub proof fn lemma_style_element_verbatim(nodes: Seq<NodeView>, sid: NodeId, tid: NodeId, f: nat)
    requires
        sid < nodes.len(),
        tid < nodes.len(),
        f >= 1,
        tag_of(nodes[sid as int].data) == Some("style"@),
        nodes[sid as int].children == seq![tid],
        nodes[tid as int].parent == Some(sid),
        nodes[tid as int].data is Text,
    ensures
        ser(nodes, sid, f) == "<style"@ + attrs_ser(nodes[sid as int].data->Element_attrs) + ">"@
            + nodes[tid as int].data->Text_content + "</style>"@,
{
    let kids = nodes[sid as int].children;
    assert(kids.drop_first() =~= Seq::<NodeId>::empty());
    assert(ser_list(nodes, kids.drop_first(), (f - 1) as nat) == Seq::<char>::empty());
    lemma_raw_text_unescaped(nodes, tid, sid, (f - 1) as nat);
    assert(ser_list(nodes, kids, (f - 1) as nat) =~= nodes[tid as int].data->Text_content);
    reveal_strlit("style");
    assert(!is_void("style"@)) by {
        reveal_strlit("area");
        reveal_strlit("base");
        reveal_strlit("br");
        reveal_strlit("col");
        reveal_strlit("embed");
        reveal_strlit("hr");
        reveal_strlit("img");
        reveal_strlit("input");
        reveal_strlit("link");
        reveal_strlit("meta");
        reveal_strlit("param");
        reveal_strlit("source");
        reveal_strlit("track");
        reveal_strlit("wbr");
        assert("area"@[0] != "style"@[0]);
        assert("base"@[0] != "style"@[0]);
        assert("br"@[0] != "style"@[0]);
        assert("col"@[0] != "style"@[0]);
        assert("embed"@[0] != "style"@[0]);
        assert("hr"@[0] != "style"@[0]);
        assert("img"@[0] != "style"@[0]);
        assert("input"@[0] != "style"@[0]);
        assert("link"@[0] != "style"@[0]);
        assert("meta"@[0] != "style"@[0]);
        assert("param"@[0] != "style"@[0]);
        assert("source"@.len() != "style"@.len());
        assert("track"@[0] != "style"@[0]);
        assert("wbr"@[0] != "style"@[0]);
    }
    reveal_strlit("<");
    reveal_strlit("<style");
    reveal_strlit("</");
    reveal_strlit("</style>");
    reveal_strlit(">");
    assert("<"@ + "style"@ =~= "<style"@);
    assert("</"@ + "style"@ + ">"@ =~= "</style>"@);
}

/// Escaped text holds no `<` and no `>`: it cannot open or close a tag.
pub proof fn lemma_escaped_text_has_no_brackets(s: Seq<char>)
    ensures
        forall|i: int| 0 <= i < esc_text(s).len() ==> #[trigger] esc_text(s)[i] != '<' && esc_text(s)[i] != '>',
    decreases s.len(),
{
    reveal_strlit("&amp;");
    reveal_strlit("&lt;");
    reveal_strlit("&gt;");
    if s.len() > 0 {
        lemma_escaped_text_has_no_brackets(s.drop_last());
        let a = esc_text(s.drop_last());
        let b = esc_text_char(s.last());
        assert forall|i: int| 0 <= i < esc_text(s).len() implies #[trigger] esc_text(s)[i] != '<' && esc_text(s)[i]
            != '>' by {
            if i < a.len() {
                assert(esc_text(s)[i] == a[i]);
            } else {
                assert(esc_text(s)[i] == b[i - a.len()]);
            }
        }
    }
}

/// Text with no `&`, `<` or `>` is written as it is.
pub proof fn lemma_plain_text_unescaped(s: Seq<char>)
    requires
        forall|i: int| 0 <= i < s.len() ==> #[trigger] s[i] != '&' && s[i] != '<' && s[i] != '>',
    ensures
        esc_text(s) == s,
    decreases s.len(),
{
    if s.len() > 0 {
        let t = s.drop_last();
        assert forall|i: int| 0 <= i < t.len() implies #[trigger] t[i] != '&' && t[i] != '<' && t[i] != '>' by {
            assert(t[i] == s[i]);
        }
        lemma_plain_text_unescaped(t);
        assert(t.push(s.last()) =~= s);
    }
}

/// The empty elements (`area`, `base`, `br`, `col`, `embed`, `hr`, `img`, `input`,
/// `link`, `meta`, `param`, `source`, `track`, `wbr`) are written as a start tag
/// alone, whatever children the tree gives them.
pub proof fn lemma_void_element_start_tag_only(nodes: Seq<NodeView>, id: NodeId, f: nat)
    requires
        id < nodes.len(),
        tag_of(nodes[id as int].data) matches Some(t) && (t == "area"@ || t == "base"@ || t == "br"@ || t
            == "col"@ || t == "embed"@ || t == "hr"@ || t == "img"@ || t == "input"@ || t == "link"@ || t
            == "meta"@ || t == "param"@ || t == "source"@ || t == "track"@ || t == "wbr"@),
    ensures
        ser(nodes, id, f) == "<"@ + nodes[id as int].data->Element_tag_name + attrs_ser(
            nodes[id as int].data->Element_attrs,
        ) + ">"@,
{
}

pub struct DomSerializer;

impl DomSerializer {
    /// The whole document as HTML.
    pub fn serialize(doc: &Document) -> (r: BrowserResult<String>)
        ensures
            r matches Ok(s) && s@ == ser(doc@.nodes, 0, doc@.nodes.len()),
    {
        let mut buf = String::new();
        write_node(doc, doc.root(), &mut buf, doc.nodes.len());
        assert(buf@ =~= ser(doc@.nodes, 0, doc@.nodes.len()));
        Ok(buf)
    }

    /// The children of a node as HTML (innerHTML).
    pub fn serialize_children(doc: &Document, node_id: NodeId) -> (r: BrowserResult<String>)
        ensures
            r matches Ok(s) && s@ == (if node_id < doc@.nodes.len() {
                ser_list(doc@.nodes, doc@.nodes[node_id as int].children, doc@.nodes.len())
            } else {
                Seq::empty()
            }),
    {
        let mut buf = String::new();
        if let Some(node) = doc.get(node_id) {
            let children = &node.children;
            write_list(doc, children, 0, &mut buf, doc.nodes.len());
            assert(children@.skip(0) =~= children@);
            assert(buf@ =~= ser_list(doc@.nodes, doc@.nodes[node_id as int].children, doc@.nodes.len()));
        }
        Ok(buf)
    }

    /// One node with its tag as HTML (outerHTML).
    pub fn serialize_node(doc: &Document, node_id: NodeId) -> (r: BrowserResult<String>)
        ensures
            r matches Ok(s) && s@ == ser(doc@.nodes, node_id, doc@.nodes.len()),
    {
        let mut buf = String::new();
        write_node(doc, node_id, &mut buf, doc.nodes.len());
        assert(buf@ =~= ser(doc@.nodes, node_id, doc@.nodes.len()));
        Ok(buf)
    }
}

} // verus!

//! The DOM domain: arena nodes written as protocol node objects.
use vstd::prelude::*;
use crate::browser::json::{JsonValue, JsonView};
use crate::dom::document::Document;
use crate::dom::node::{attrs_view, nodes_view, AttrView, DataView, NodeData, NodeId, NodeView};
use crate::text::{decimal, decimal_string, to_lower, to_upper, unicode_lower, unicode_upper};

verus! {

pub struct DomConverter;

/// Node type, node name, local name and node value of a node.
pub open spec fn cdp_fields(d: DataView) -> (nat, Seq<char>, Seq<char>, Seq<char>) {
    match d {
        DataView::Document => (9, "#document"@, Seq::empty(), Seq::empty()),
        DataView::Doctype { name, .. } => (10, name, Seq::empty(), Seq::empty()),
        DataView::Element { tag_name, .. } => (1, unicode_upper(tag_name), unicode_lower(tag_name), Seq::empty()),
        DataView::Text { content } => (3, "#text"@, Seq::empty(), content),
        DataView::Comment { content } => (8, "#comment"@, Seq::empty(), content),
        DataView::ProcessingInstruction { target, data } => (7, unicode_upper(target), unicode_lower(target), data),
    }
}

pub open spec fn num(n: nat) -> JsonView {
    JsonView::Number(decimal(n))
}

/// Names and values of the attributes, alternating, as strings.
pub open spec fn flat_attrs(attrs: Seq<AttrView>) -> Seq<JsonView>
    decreases attrs.len(),
{
    if attrs.len() == 0 {
        Seq::empty()
    } else {
        flat_attrs(attrs.drop_last()) + seq![JsonView::Str(attrs.last().name), JsonView::Str(attrs.last().value)]
    }
}

/// Whether a node with `count` children lists them at this depth and fuel.
pub open spec fn lists_children(depth: int, count: nat, f: nat) -> bool {
    (depth > 0 || depth == -1) && count > 0 && f > 0
}

/// The depth handed on to the children: -1 stays -1.
pub open spec fn next_depth(depth: int) -> int {
    if depth == -1 {
        -1
    } else {
        depth - 1
    }
}

/// The `attributes` member of an element (none for other nodes).
pub open spec fn attrs_member(d: DataView) -> Seq<(Seq<char>, JsonView)> {
    match d {
        DataView::Element { attrs, .. } => seq![("attributes"@, JsonView::Array(flat_attrs(attrs)))],
        _ => Seq::empty(),
    }
}

/// The protocol objects of `children`, one level down from fuel `f`.
pub open spec fn cdp_children(nodes: Seq<NodeView>, children: Seq<NodeId>, depth: int, f: nat) -> Seq<JsonView>
    decreases f, 0int,
{
    if f == 0 {
        Seq::empty()
    } else {
        Seq::new(children.len(), |i: int| cdp_node(nodes, children[i], depth, (f - 1) as nat))
    }
}

/// The protocol object for node `id`, with children down to `depth` levels
/// (all of them for -1) and at most `f` levels down.
pub open spec fn cdp_node(nodes: Seq<NodeView>, id: NodeId, depth: int, f: nat) -> JsonView
    decreases f, 1int,
{
    if id >= nodes.len() {
        JsonView::Null
    } else {
        let n = nodes[id as int];
        let (t, name, local, value) = cdp_fields(n.data);
        let kids = if lists_children(depth, n.children.len(), f) {
            seq![("children"@, JsonView::Array(cdp_children(nodes, n.children, next_depth(depth), f)))]
        } else {
            Seq::empty()
        };
        JsonView::Object(
            attrs_member(n.data) + seq![("backendNodeId"@, num(id as nat)), ("childNodeCount"@, num(n.children.len()))]
                + kids + seq![
                ("localName"@, JsonView::Str(local)),
                ("nodeId"@, num(id as nat)),
                ("nodeName"@, JsonView::Str(name)),
                ("nodeType"@, num(t)),
                ("nodeValue"@, JsonView::Str(value)),
            ],
        )
    }
}

fn num_exec(n: usize) -> (r: JsonValue)
    ensures
        r@ == num(n as nat),
{
    JsonValue::Number(decimal_string(n as u128))
}

fn str_val(s: String) -> (r: JsonValue)
    ensures
        r@ == JsonView::Str(s@),
{
    JsonValue::Str(s)
}

pub(crate) fn flat_attrs_exec(attrs: &Vec<crate::dom::node::Attribute>) -> (r: Vec<JsonValue>)
    ensures
        crate::browser::json::json_views(r@) == flat_attrs(attrs_view(attrs@)),
{
    let ghost av = attrs_view(attrs@);
    let mut out: Vec<JsonValue> = Vec::new();
    let mut i: usize = 0;
    proof {
        crate::browser::json::lemma_json_views(out@);
    }
    assert(av.take(0) =~= Seq::<AttrView>::empty());
    while i < attrs.len()
        invariant
            i <= attrs@.len(),
            av == attrs_view(attrs@),
            crate::browser::json::json_views(out@) == flat_attrs(av.take(i as int)),
        decreases attrs@.len() - i,
    {
        let ghost t = av.take(i + 1);
        assert(t.drop_last() =~= av.take(i as int));
        assert(t.last() == attrs@[i as int]@);
        let ghost before = out@;
        out.push(str_val(attrs[i].name.clone()));
        out.push(str_val(attrs[i].value.clone()));
        proof {
            crate::browser::json::lemma_json_views(before);
            crate::browser::json::lemma_json_views(out@);
            assert(crate::browser::json::json_views(out@) =~= crate::browser::json::json_views(before) + seq![
                JsonView::Str(attrs@[i as int].name@),
                JsonView::Str(attrs@[i as int].value@),
            ]);
        }
        i = i + 1;
    }
    assert(av.take(attrs@.len() as int) =~= av);
    out
}

fn convert(doc: &Document, node_id: NodeId, depth: i32, f: usize) -> (r: JsonValue)
    ensures
        r@ == cdp_node(doc@.nodes, node_id, depth as int, f as nat),
    decreases f,
{
    if node_id >= doc.nodes.len() {
        return JsonValue::Null;
    }
    let node = &doc.nodes[node_id];
    assert(doc@.nodes[node_id as int] == node@);
    let (t, name, local, value): (usize, String, String, String) = match &node.data {
        NodeData::Document => (9, "#document".to_owned(), String::new(), String::new()),
        NodeData::Doctype { name, .. } => (10, name.clone(), String::new(), String::new()),
        NodeData::Element { tag_name, .. } => (1, to_upper(tag_name.as_str()), to_lower(tag_name.as_str()), String::new()),
        NodeData::Text { content } => (3, "#text".to_owned(), String::new(), content.clone()),
        NodeData::Comment { content } => (8, "#comment".to_owned(), String::new(), content.clone()),
        NodeData::ProcessingInstruction { target, data } => (
            7,
            to_upper(target.as_str()),
            to_lower(target.as_str()),
            data.clone(),
        ),
    };
    proof {
        reveal_strlit("");
    }
    assert(""@ =~= Seq::<char>::empty());
    assert((t as nat, name@, local@, value@) == cdp_fields(node@.data));
    let mut members: Vec<(String, JsonValue)> = Vec::new();
    match &node.data {
        NodeData::Element { attrs, .. } => {
            let flat = flat_attrs_exec(attrs);
            members.push(("attributes".to_owned(), JsonValue::Array(flat)));
        },
        _ => {},
    }
    members.push(("backendNodeId".to_owned(), num_exec(node_id)));
    members.push(("childNodeCount".to_owned(), num_exec(node.children.len())));
    if (depth > 0 || depth == -1) && node.children.len() > 0 && f > 0 {
        let next: i32 = if depth == -1 { -1 } else { depth - 1 };
        let mut kids: Vec<JsonValue> = Vec::new();
        let mut i: usize = 0;
        while i < node.children.len()
            invariant
                i <= node.children@.len(),
                f > 0,
                kids@.len() == i,
                forall|j: int|
                    0 <= j < i ==> #[trigger] kids@[j]@ == cdp_node(doc@.nodes, node.children@[j], next as int, (f - 1) as nat),
            decreases node.children@.len() - i,
        {
            let k = convert(doc, node.children[i], next, f - 1);
            kids.push(k);
            i = i + 1;
        }
        proof {
            crate::browser::json::lemma_json_views(kids@);
        }
        let ghost kv = crate::browser::json::json_views(kids@);
        assert forall|j: int| 0 <= j < kv.len() implies #[trigger] kv[j] == cdp_children(
            doc@.nodes,
            node@.children,
            next as int,
            f as nat,
        )[j] by {
            assert(kv[j] == crate::browser::json::json_view(kids@[j]));
            assert(kids@[j]@ == cdp_node(doc@.nodes, node.children@[j], next as int, (f - 1) as nat));
        }
        assert(kv =~= cdp_children(doc@.nodes, node@.children, next as int, f as nat));
        members.push(("children".to_owned(), JsonValue::Array(kids)));
    }
    members.push(("localName".to_owned(), str_val(local)));
    members.push(("nodeId".to_owned(), num_exec(node_id)));
    members.push(("nodeName".to_owned(), str_val(name)));
    members.push(("nodeType".to_owned(), num_exec(t)));
    members.push(("nodeValue".to_owned(), str_val(value)));
    proof {
        crate::browser::json::lemma_json_members(members@);
    }
    let ghost mv = crate::browser::json::json_members(members@);
    let ghost n = node@;
    let ghost kids_part = if lists_children(depth as int, n.children.len(), f as nat) {
        seq![("children"@, JsonView::Array(cdp_children(doc@.nodes, n.children, next_depth(depth as int), f as nat)))]
    } else {
        Seq::empty()
    };
    let ghost expected = attrs_member(n.data) + seq![("backendNodeId"@, num(node_id as nat)), ("childNodeCount"@, num(n.children.len()))]
        + kids_part + seq![
        ("localName"@, JsonView::Str(local@)),
        ("nodeId"@, num(node_id as nat)),
        ("nodeName"@, JsonView::Str(name@)),
        ("nodeType"@, num(t as nat)),
        ("nodeValue"@, JsonView::Str(value@)),
    ];
    assert(mv =~= expected);
    let r = JsonValue::Object(members);
    assert(r@ == JsonView::Object(mv));
    assert(cdp_node(doc@.nodes, node_id, depth as int, f as nat) == JsonView::Object(expected));
    r
}

impl DomConverter {
    /// The protocol node object for `node_id`, with its children down to
    /// `depth` levels (all of them for -1); `null` for a slot that does not
    /// exist.
    pub fn node_to_cdp(doc: &Document, node_id: NodeId, depth: i32) -> (r: JsonValue)
        ensures
            r@ == cdp_node(doc@.nodes, node_id, depth as int, doc@.nodes.len()),
    {
        convert(doc, node_id, depth, doc.nodes.len())
    }
}

} // verus!

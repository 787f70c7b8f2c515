//! Node records of the arena DOM.
use vstd::prelude::*;
use crate::text::str_eq;

verus! {

pub type NodeId = usize;

/// A name/value pair on an element.
#[derive(Debug)]
pub struct Attribute {
    pub name: String,
    pub value: String,
}

#[verifier::ext_equal]
pub struct AttrView {
    pub name: Seq<char>,
    pub value: Seq<char>,
}

impl View for Attribute {
    type V = AttrView;

    open spec fn view(&self) -> AttrView {
        AttrView { name: self.name@, value: self.value@ }
    }
}

impl Clone for Attribute {
    fn clone(&self) -> (r: Self)
        ensures
            r@ == self@,
    {
        Attribute { name: self.name.clone(), value: self.value.clone() }
    }
}

pub open spec fn attrs_view(a: Seq<Attribute>) -> Seq<AttrView> {
    a.map_values(|x: Attribute| x@)
}

/// What a node is.
#[derive(Debug)]
pub enum NodeData {
    Document,
    Doctype { name: String, public_id: String, system_id: String },
    /// `tag_name` is always lower case when the parser or
    /// `create_element_node` made the node.
    Element { tag_name: String, namespace: String, attrs: Vec<Attribute> },
    Text { content: String },
    Comment { content: String },
    ProcessingInstruction { target: String, data: String },
}

#[verifier::ext_equal]
pub enum DataView {
    Document,
    Doctype { name: Seq<char>, public_id: Seq<char>, system_id: Seq<char> },
    Element { tag_name: Seq<char>, namespace: Seq<char>, attrs: Seq<AttrView> },
    Text { content: Seq<char> },
    Comment { content: Seq<char> },
    ProcessingInstruction { target: Seq<char>, data: Seq<char> },
}

impl View for NodeData {
    type V = DataView;

    open spec fn view(&self) -> DataView {
        match self {
            NodeData::Document => DataView::Document,
            NodeData::Doctype { name, public_id, system_id } => DataView::Doctype {
                name: name@,
                public_id: public_id@,
                system_id: system_id@,
            },
            NodeData::Element { tag_name, namespace, attrs } => DataView::Element {
                tag_name: tag_name@,
                namespace: namespace@,
                attrs: attrs_view(attrs@),
            },
            NodeData::Text { content } => DataView::Text { content: content@ },
            NodeData::Comment { content } => DataView::Comment { content: content@ },
            NodeData::ProcessingInstruction { target, data } => DataView::ProcessingInstruction {
                target: target@,
                data: data@,
            },
        }
    }
}

impl Clone for NodeData {
    fn clone(&self) -> (r: Self)
        ensures
            r@ == self@,
    {
        match self {
            NodeData::Document => NodeData::Document,
            NodeData::Doctype { name, public_id, system_id } => NodeData::Doctype {
                name: name.clone(),
                public_id: public_id.clone(),
                system_id: system_id.clone(),
            },
            NodeData::Element { tag_name, namespace, attrs } => {
                let a = attrs.clone();
                assert(attrs_view(a@) =~= attrs_view(attrs@));
                NodeData::Element { tag_name: tag_name.clone(), namespace: namespace.clone(), attrs: a }
            },
            NodeData::Text { content } => NodeData::Text { content: content.clone() },
            NodeData::Comment { content } => NodeData::Comment { content: content.clone() },
            NodeData::ProcessingInstruction { target, data } => NodeData::ProcessingInstruction {
                target: target.clone(),
                data: data.clone(),
            },
        }
    }
}

/// One slot of the arena.
#[derive(Debug)]
pub struct Node {
    pub id: NodeId,
    pub data: NodeData,
    pub parent: Option<NodeId>,
    pub children: Vec<NodeId>,
}

#[verifier::ext_equal]
pub struct NodeView {
    pub id: NodeId,
    pub data: DataView,
    pub parent: Option<NodeId>,
    pub children: Seq<NodeId>,
}

impl View for Node {
    type V = NodeView;

    open spec fn view(&self) -> NodeView {
        NodeView { id: self.id, data: self.data@, parent: self.parent, children: self.children@ }
    }
}

impl Clone for Node {
    fn clone(&self) -> (r: Self)
        ensures
            r@ == self@,
    {
        Node {
            id: self.id,
            data: self.data.clone(),
            parent: self.parent,
            children: self.children.clone(),
        }
    }
}

pub open spec fn nodes_view(s: Seq<Node>) -> Seq<NodeView> {
    s.map_values(|n: Node| n@)
}

/// The value of the first attribute named `name`.
pub open spec fn attr_lookup(attrs: Seq<AttrView>, name: Seq<char>) -> Option<Seq<char>>
    decreases attrs.len(),
{
    if attrs.len() == 0 {
        None
    } else if attrs[0].name == name {
        Some(attrs[0].value)
    } else {
        attr_lookup(attrs.drop_first(), name)
    }
}

pub open spec fn tag_of(d: DataView) -> Option<Seq<char>> {
    match d {
        DataView::Element { tag_name, .. } => Some(tag_name),
        _ => None,
    }
}

pub open spec fn attr_of(d: DataView, name: Seq<char>) -> Option<Seq<char>> {
    match d {
        DataView::Element { attrs, .. } => attr_lookup(attrs, name),
        _ => None,
    }
}

pub open spec fn is_element_view(d: DataView) -> bool {
    d is Element
}

pub open spec fn opt_str_view(o: Option<&str>) -> Option<Seq<char>> {
    match o {
        Some(s) => Some(s@),
        None => None,
    }
}

/// The text of a node: its own content for a text node, otherwise the text of
/// its children in order. Children more than `f` levels down are not read.
pub open spec fn text_of(nodes: Seq<NodeView>, n: NodeView, f: nat) -> Seq<char>
    decreases f, 0nat,
{
    match n.data {
        DataView::Text { content } => content,
        _ => if f == 0 {
            Seq::empty()
        } else {
            text_list(nodes, n.children, (f - 1) as nat)
        },
    }
}

pub open spec fn text_list(nodes: Seq<NodeView>, ids: Seq<NodeId>, f: nat) -> Seq<char>
    decreases f, ids.len() + 1,
{
    if ids.len() == 0 {
        Seq::empty()
    } else {
        (if ids[0] < nodes.len() {
            text_of(nodes, nodes[ids[0] as int], f)
        } else {
            Seq::empty()
        }) + text_list(nodes, ids.drop_first(), f)
    }
}

/// Position of the first attribute named `name`.
fn find_attr(attrs: &Vec<Attribute>, name: &str) -> (r: Option<usize>)
    ensures
        match r {
            Some(i) => i < attrs@.len() && attr_lookup(attrs_view(attrs@), name@) == Some(
                attrs@[i as int].value@,
            ) && attrs@[i as int].name@ == name@ && forall|j: int|
                0 <= j < i ==> attrs@[j].name@ != name@,
            None => attr_lookup(attrs_view(attrs@), name@) is None && forall|j: int|
                0 <= j < attrs@.len() ==> attrs@[j].name@ != name@,
        },
{
    let mut i: usize = 0;
    assert(attrs_view(attrs@).skip(0) =~= attrs_view(attrs@));
    while i < attrs.len()
        invariant
            i <= attrs@.len(),
            forall|j: int| 0 <= j < i ==> attrs@[j].name@ != name@,
            attr_lookup(attrs_view(attrs@), name@) == attr_lookup(
                attrs_view(attrs@).skip(i as int),
                name@,
            ),
        decreases attrs@.len() - i,
    {
        let ghost rest = attrs_view(attrs@).skip(i as int);
        assert(rest[0] == attrs@[i as int]@);
        if str_eq(attrs[i].name.as_str(), name) {
            return Some(i);
        }
        assert(rest.drop_first() =~= attrs_view(attrs@).skip(i + 1));
        i = i + 1;
    }
    assert(attrs_view(attrs@).skip(i as int).len() == 0);
    None
}

pub(crate) fn find_attr_pos(attrs: &Vec<Attribute>, name: &str) -> (r: Option<usize>)
    ensures
        match r {
            Some(i) => i < attrs@.len() && attr_lookup(attrs_view(attrs@), name@) == Some(
                attrs@[i as int].value@,
            ) && attrs@[i as int].name@ == name@ && forall|j: int|
                0 <= j < i ==> attrs@[j].name@ != name@,
            None => attr_lookup(attrs_view(attrs@), name@) is None && forall|j: int|
                0 <= j < attrs@.len() ==> attrs@[j].name@ != name@,
        },
{
    find_attr(attrs, name)
}

impl Node {
    pub fn new(id: NodeId, data: NodeData) -> (r: Self)
        ensures
            r@ == (NodeView { id, data: data@, parent: None, children: Seq::empty() }),
    {
        Node { id, data, parent: None, children: Vec::new() }
    }

    pub fn is_element(&self) -> (r: bool)
        ensures
            r == is_element_view(self@.data),
    {
        match &self.data {
            NodeData::Element { .. } => true,
            _ => false,
        }
    }

    pub fn tag_name(&self) -> (r: Option<&str>)
        ensures
            opt_str_view(r) == tag_of(self@.data),
    {
        match &self.data {
            NodeData::Element { tag_name, .. } => Some(tag_name.as_str()),
            _ => None,
        }
    }

    pub fn attr(&self, name: &str) -> (r: Option<&str>)
        ensures
            opt_str_view(r) == attr_of(self@.data, name@),
    {
        match &self.data {
            NodeData::Element { attrs, .. } => match find_attr(attrs, name) {
                Some(i) => Some(attrs[i].value.as_str()),
                None => None,
            },
            _ => None,
        }
    }

    /// Concatenated text of this node and everything below it in `arena`.
    pub fn text_content(&self, arena: &[Node]) -> (r: String)
        ensures
            r@ == text_of(nodes_view(arena@), self@, arena@.len() as nat),
    {
        let mut out = String::new();
        text_into(self, arena, arena.len(), &mut out);
        out
    }
}

pub(crate) fn text_into(n: &Node, arena: &[Node], f: usize, out: &mut String)
    ensures
        final(out)@ == old(out)@ + text_of(nodes_view(arena@), n@, f as nat),
    decreases f, 0nat,
{
    match &n.data {
        NodeData::Text { content } => {
            out.append(content.as_str());
        },
        _ => {
            if f > 0 {
                text_list_into(&n.children, 0, arena, f - 1, out);
                assert(n.children@.skip(0) == n.children@);
            }
        },
    }
}

fn text_list_into(ids: &Vec<NodeId>, start: usize, arena: &[Node], f: usize, out: &mut String)
    requires
        start <= ids@.len(),
    ensures
        final(out)@ == old(out)@ + text_list(nodes_view(arena@), ids@.skip(start as int), f as nat),
    decreases f, ids@.len() - start + 1,
{
    let ghost nv = nodes_view(arena@);
    let ghost s = ids@.skip(start as int);
    if start >= ids.len() {
        assert(s.len() == 0);
        assert(old(out)@ + Seq::<char>::empty() =~= old(out)@);
        return;
    }
    let id = ids[start];
    let ghost before = out@;
    if id < arena.len() {
        text_into(&arena[id], arena, f, out);
    }
    let ghost mid = out@;
    text_list_into(ids, start + 1, arena, f, out);
    assert(s.drop_first() =~= ids@.skip(start + 1));
    assert(s[0] == id);
    assert(mid == before + (if id < nv.len() { text_of(nv, nv[id as int], f as nat) } else { Seq::empty() }));
    assert(out@ =~= before + text_list(nv, s, f as nat));
}

} // verus!

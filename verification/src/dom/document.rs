//! The document: an arena of nodes addressed by `NodeId`, slot 0 being the
//! document node, with a free list of released slots.
use vstd::prelude::*;
use crate::dom::node::{
    attr_lookup, Attribute, AttrView, DataView, Node, NodeData, NodeId, NodeView, attr_of, attrs_view, nodes_view,
    tag_of, text_list, text_of, find_attr_pos, opt_str_view, text_into,
};
use crate::dom::tree::{doc_order, first_of, pre_list, preorder};
use crate::text::{ascii_lower, ascii_lower_str, str_eq, trim, trim_str};

verus! {

pub struct Document {
    pub nodes: Vec<Node>,
    pub url: String,
    /// Released slots, reused last-in first-out by `create_node`.
    pub free_list: Vec<NodeId>,
}

#[verifier::ext_equal]
pub struct DocView {
    pub nodes: Seq<NodeView>,
    pub url: Seq<char>,
    pub free: Seq<NodeId>,
}

impl View for Document {
    type V = DocView;

    open spec fn view(&self) -> DocView {
        DocView { nodes: nodes_view(self.nodes@), url: self.url@, free: self.free_list@ }
    }
}

/// The arena invariant: a document node exists, released slots are real
/// non-root slots, and every parent and child link names a slot.
pub open spec fn doc_wf(d: DocView) -> bool {
    &&& d.nodes.len() >= 1
    &&& forall|i: int| 0 <= i < d.free.len() ==> 0 < #[trigger] d.free[i] < d.nodes.len()
    &&& forall|i: int, k: int|
        0 <= i < d.nodes.len() && 0 <= k < d.nodes[i].children.len() ==> #[trigger] d.nodes[i].children[k]
            < d.nodes.len()
    &&& forall|i: int|
        0 <= i < d.nodes.len() ==> (#[trigger] d.nodes[i].parent matches Some(p) ==> p < d.nodes.len())
}

pub open spec fn fresh(id: NodeId, data: DataView) -> NodeView {
    NodeView { id, data, parent: None, children: Seq::empty() }
}

pub open spec fn with_parent(n: NodeView, p: Option<NodeId>) -> NodeView {
    NodeView { id: n.id, data: n.data, parent: p, children: n.children }
}

pub open spec fn with_children(n: NodeView, c: Seq<NodeId>) -> NodeView {
    NodeView { id: n.id, data: n.data, parent: n.parent, children: c }
}

pub open spec fn with_data(n: NodeView, data: DataView) -> NodeView {
    NodeView { id: n.id, data, parent: n.parent, children: n.children }
}

pub open spec fn with_nodes(d: DocView, nodes: Seq<NodeView>) -> DocView {
    DocView { nodes, url: d.url, free: d.free }
}

/// The document and the id that `create_node` gives for `data`.
pub open spec fn create_spec(d: DocView, data: DataView) -> (DocView, NodeId) {
    if d.free.len() > 0 {
        let id = d.free.last();
        (DocView { nodes: d.nodes.update(id as int, fresh(id, data)), url: d.url, free: d.free.drop_last() }, id)
    } else {
        let id = d.nodes.len() as NodeId;
        (DocView { nodes: d.nodes.push(fresh(id, data)), url: d.url, free: d.free }, id)
    }
}

/// Every id but `node`.
pub open spec fn other_than(node: NodeId) -> spec_fn(NodeId) -> bool {
    |c: NodeId| c != node
}

/// The document after `remove_from_parent(node)`: every occurrence of `node`
/// leaves its parent's child list and `node` has no parent.
pub open spec fn unlink_spec(d: DocView, node: NodeId) -> DocView {
    match d.nodes[node as int].parent {
        Some(p) => {
            let n1 = d.nodes.update(p as int, with_children(
                d.nodes[p as int],
                d.nodes[p as int].children.filter(other_than(node)),
            ));
            with_nodes(d, n1.update(node as int, with_parent(n1[node as int], None)))
        },
        None => d,
    }
}

/// The document after `append_child(parent, child)`.
pub open spec fn append_spec(d: DocView, parent: NodeId, child: NodeId) -> DocView {
    let n1 = d.nodes.update(child as int, with_parent(d.nodes[child as int], Some(parent)));
    let n2 = n1.update(parent as int, with_children(n1[parent as int], n1[parent as int].children.push(child)));
    with_nodes(d, n2)
}

pub open spec fn has_tag(n: NodeView, tag: Seq<char>) -> bool {
    tag_of(n.data) == Some(tag)
}

pub open spec fn has_id(n: NodeView, id: Seq<char>) -> bool {
    attr_of(n.data, "id"@) == Some(id)
}

pub open spec fn tagged(d: DocView, tag: Seq<char>) -> Seq<NodeId> {
    doc_order(d.nodes).filter(|i: NodeId| i < d.nodes.len() && has_tag(d.nodes[i as int], tag))
}

pub open spec fn with_id(d: DocView, id: Seq<char>) -> Seq<NodeId> {
    doc_order(d.nodes).filter(|i: NodeId| i < d.nodes.len() && has_id(d.nodes[i as int], id))
}

/// Every node that `tagged` lists is a slot of the arena.
pub proof fn lemma_tagged_in_range(d: DocView, tag: Seq<char>)
    ensures
        forall|j: int| 0 <= j < tagged(d, tag).len() ==> #[trigger] tagged(d, tag)[j] < d.nodes.len(),
{
    broadcast use vstd::seq_lib::group_filter_ensures;

}

/// The first element named `tag` in document order.
pub open spec fn find_tag(d: DocView, tag: Seq<char>) -> Option<NodeId> {
    first_of(tagged(d, tag))
}

pub open spec fn doc_text(d: DocView, id: NodeId) -> Seq<char> {
    if id < d.nodes.len() {
        text_of(d.nodes, d.nodes[id as int], d.nodes.len())
    } else {
        Seq::empty()
    }
}

/// Index of the first occurrence of `x` in `s`.
pub open spec fn index_of(s: Seq<NodeId>, x: NodeId) -> Option<int>
    decreases s.len(),
{
    if s.len() == 0 {
        None
    } else if s[0] == x {
        Some(0)
    } else {
        match index_of(s.drop_first(), x) {
            Some(i) => Some(i + 1),
            None => None,
        }
    }
}

pub open spec fn next_sibling_spec(d: DocView, id: NodeId) -> Option<NodeId> {
    if id < d.nodes.len() {
        match d.nodes[id as int].parent {
            Some(p) => {
                let sib = d.nodes[p as int].children;
                match index_of(sib, id) {
                    Some(i) => if i + 1 < sib.len() {
                        Some(sib[i + 1])
                    } else {
                        None
                    },
                    None => None,
                }
            },
            None => None,
        }
    } else {
        None
    }
}

pub open spec fn prev_sibling_spec(d: DocView, id: NodeId) -> Option<NodeId> {
    if id < d.nodes.len() {
        match d.nodes[id as int].parent {
            Some(p) => {
                let sib = d.nodes[p as int].children;
                match index_of(sib, id) {
                    Some(i) => if i == 0 {
                        None
                    } else {
                        Some(sib[i - 1])
                    },
                    None => None,
                }
            },
            None => None,
        }
    } else {
        None
    }
}

pub proof fn lemma_filter_step(s: Seq<NodeId>, k: int, p: spec_fn(NodeId) -> bool)
    requires
        0 <= k < s.len(),
    ensures
        s.take(k + 1).filter(p) == (if p(s[k]) {
            s.take(k).filter(p).push(s[k])
        } else {
            s.take(k).filter(p)
        }),
{
    reveal(Seq::filter);
    assert(s.take(k + 1).drop_last() =~= s.take(k));
}

/// Keeps the ids of `order` that satisfy `p`; used by the searches below.
pub(crate) proof fn lemma_first_found(s: Seq<NodeId>, k: int, p: spec_fn(NodeId) -> bool)
    requires
        0 <= k < s.len(),
        s.take(k).filter(p).len() == 0,
        p(s[k]),
    ensures
        first_of(s.filter(p)) == Some(s[k]),
{
    lemma_filter_step(s, k, p);
    assert(s =~= s.take(k + 1) + s.skip(k + 1));
    Seq::filter_distributes_over_add(s.take(k + 1), s.skip(k + 1), p);
}

impl Document {
    pub fn new() -> (r: Self)
        ensures
            r@.nodes == seq![fresh(0, DataView::Document)],
            r@.url == Seq::<char>::empty(),
            r@.free == Seq::<NodeId>::empty(),
            doc_wf(r@),
    {
        let root = Node::new(0, NodeData::Document);
        let mut nodes = Vec::new();
        nodes.push(root);
        let d = Document { nodes, url: String::new(), free_list: Vec::new() };
        assert(d@.nodes =~= seq![fresh(0, DataView::Document)]);
        d
    }

    pub fn with_url(url: &str) -> (r: Self)
        ensures
            r@.nodes == seq![fresh(0, DataView::Document)],
            r@.url == url@,
            r@.free == Seq::<NodeId>::empty(),
            doc_wf(r@),
    {
        let mut doc = Document::new();
        doc.url = url.to_owned();
        doc
    }

    pub fn root(&self) -> (r: NodeId)
        ensures
            r == 0,
    {
        0
    }

    pub fn get(&self, id: NodeId) -> (r: Option<&Node>)
        ensures
            match r {
                Some(n) => id < self@.nodes.len() && n@ == self@.nodes[id as int],
                None => id >= self@.nodes.len(),
            },
    {
        if id < self.nodes.len() {
            Some(&self.nodes[id])
        } else {
            None
        }
    }

    /// Stores `data` in a released slot (the most recently released one) or
    /// in a new slot at the end, and returns its id.
    pub fn create_node(&mut self, data: NodeData) -> (id: NodeId)
        requires
            doc_wf(old(self)@),
        ensures
            (final(self)@, id) == create_spec(old(self)@, data@),
            doc_wf(final(self)@),
    {
        let ghost d0 = self@;
        let ghost dv = data@;
        match self.free_list.pop() {
            Some(id) => {
                assert(d0.free[d0.free.len() - 1] == id);
                self.nodes.set(id, Node::new(id, data));
                assert(self@.nodes =~= d0.nodes.update(id as int, fresh(id, dv)));
                proof {
                    assert forall|i: int| 0 <= i < self@.free.len() implies 0 < #[trigger] self@.free[i] < self@.nodes.len() by {
                        assert(self@.free[i] == d0.free[i]);
                    }
                }
                id
            },
            None => {
                let id = self.nodes.len();
                self.nodes.push(Node::new(id, data));
                assert(self@.nodes =~= d0.nodes.push(fresh(id, dv)));
                id
            },
        }
    }

    pub fn append_child(&mut self, parent: NodeId, child: NodeId)
        requires
            doc_wf(old(self)@),
            parent < old(self)@.nodes.len(),
            child < old(self)@.nodes.len(),
        ensures
            final(self)@ == append_spec(old(self)@, parent, child),
            doc_wf(final(self)@),
    {
        let ghost d0 = self@;
        self.nodes[child].parent = Some(parent);
        self.nodes[parent].children.push(child);
        assert(self@.nodes =~= append_spec(d0, parent, child).nodes);
        proof {
            let d = self@;
            assert forall|i: int, k: int|
                0 <= i < d.nodes.len() && 0 <= k < d.nodes[i].children.len() implies #[trigger] d.nodes[i].children[k]
                    < d.nodes.len() by {
                if i == parent && k == d.nodes[i].children.len() - 1 {
                } else {
                    assert(d.nodes[i].children[k] == d0.nodes[i].children[k]);
                }
            }
            assert forall|i: int| 0 <= i < d.nodes.len() implies (#[trigger] d.nodes[i].parent matches Some(p) ==> p < d.nodes.len()) by {
                if i != child {
                    assert(d.nodes[i].parent == d0.nodes[i].parent);
                }
            }
        }
    }

    /// Detaches `node` from its parent's child list (every occurrence).
    pub fn remove_from_parent(&mut self, node: NodeId)
        requires
            doc_wf(old(self)@),
            node < old(self)@.nodes.len(),
        ensures
            doc_wf(final(self)@),
            final(self)@ == unlink_spec(old(self)@, node),
    {
        let ghost d0 = self@;
        assert(d0.nodes[node as int].parent == self.nodes@[node as int].parent);
        match self.nodes[node].parent {
            Some(parent_id) => {
                assert(d0.nodes[node as int].parent == Some(parent_id));
                let kept = without(&self.nodes[parent_id].children, node);
                self.nodes[parent_id].children = kept;
                self.nodes[node].parent = None;
                proof {
                    let d = self@;
                    assert(d.free == d0.free);
                    assert(d.nodes.len() == d0.nodes.len());
                    let n1 = d0.nodes.update(parent_id as int, with_children(
                        d0.nodes[parent_id as int],
                        d0.nodes[parent_id as int].children.filter(other_than(node)),
                    ));
                    assert(d.nodes =~= n1.update(node as int, with_parent(n1[node as int], None)));
                    assert(d =~= with_nodes(d0, n1.update(node as int, with_parent(n1[node as int], None))));
                    assert(d == unlink_spec(d0, node));
                    assert forall|i: int, k: int|
                        0 <= i < d.nodes.len() && 0 <= k < d.nodes[i].children.len() implies #[trigger] d.nodes[i].children[k]
                            < d.nodes.len() by {
                        if i == parent_id {
                            let s = d0.nodes[i].children;
                            Seq::lemma_filter_pred(s, other_than(node), k);
                            let c = d.nodes[i].children[k];
                            assert(s.contains(c)) by {
                                Seq::lemma_filter_contains_rev(s, other_than(node), c);
                            }
                        } else {
                            assert(d.nodes[i].children == d0.nodes[i].children);
                        }
                    }
                    assert forall|i: int| 0 <= i < d.nodes.len() implies (#[trigger] d.nodes[i].parent matches Some(p) ==> p < d.nodes.len()) by {
                        if i != node {
                            assert(d.nodes[i].parent == d0.nodes[i].parent);
                        }
                    }
                }
            },
            None => {},
        }
    }

    /// The first element named `tag`, depth-first from the document node.
    pub fn find_element(&self, tag: &str) -> (r: Option<NodeId>)
        ensures
            r == find_tag(self@, tag@),
            r matches Some(i) ==> i < self@.nodes.len(),
    {
        let order = self.order();
        let ghost p = |i: NodeId| i < self@.nodes.len() && has_tag(self@.nodes[i as int], tag@);
        let mut k: usize = 0;
        while k < order.len()
            invariant
                order@ == doc_order(self@.nodes),
                k <= order@.len(),
                p == (|i: NodeId| i < self@.nodes.len() && has_tag(self@.nodes[i as int], tag@)),
                order@.take(k as int).filter(p).len() == 0,
            decreases order@.len() - k,
        {
            let id = order[k];
            proof { lemma_filter_step(order@, k as int, p); }
            if id < self.nodes.len() {
                if let Some(t) = self.nodes[id].tag_name() {
                    if str_eq(t, tag) {
                        proof { lemma_first_found(order@, k as int, p); }
                        return Some(id);
                    }
                }
            }
            k = k + 1;
        }
        assert(order@.take(k as int) =~= order@);
        None
    }

    /// Every node reachable from the document node, in document order.
    fn order(&self) -> (r: Vec<NodeId>)
        ensures
            r@ == doc_order(self@.nodes),
    {
        let mut start = Vec::new();
        start.push(0usize);
        assert(start@ =~= seq![0usize]);
        preorder(self.nodes.as_slice(), &start, self.nodes.len(), false)
    }

    /// Texts of the inline scripts (those without `src`), trimmed, in
    /// document order, leaving out empty ones; script bodies are not searched.
    pub fn get_element_by_id(&self, id: &str) -> (r: Option<NodeId>)
        ensures
            r == first_of(with_id(self@, id@)),
    {
        let order = self.order();
        let ghost p = |i: NodeId| i < self@.nodes.len() && has_id(self@.nodes[i as int], id@);
        let mut k: usize = 0;
        while k < order.len()
            invariant
                order@ == doc_order(self@.nodes),
                k <= order@.len(),
                p == (|i: NodeId| i < self@.nodes.len() && has_id(self@.nodes[i as int], id@)),
                order@.take(k as int).filter(p).len() == 0,
            decreases order@.len() - k,
        {
            let nid = order[k];
            proof { lemma_filter_step(order@, k as int, p); }
            if nid < self.nodes.len() {
                if let Some(v) = self.nodes[nid].attr("id") {
                    if str_eq(v, id) {
                        proof { lemma_first_found(order@, k as int, p); }
                        return Some(nid);
                    }
                }
            }
            k = k + 1;
        }
        assert(order@.take(k as int) =~= order@);
        None
    }

    /// The elements named `tag` below `parent` (not `parent` itself), found
    /// with a stack that starts with `parent`'s children: the last child
    /// and everything below it first, then the child before it, and so on.
    /// Nothing is found below a slot outside the arena.
    pub fn elements_by_tag_below(&self, parent: NodeId, tag: &str) -> (r: Vec<NodeId>)
        ensures
            r@ == (if parent < self@.nodes.len() {
                tag_below_rev(self@.nodes, self@.nodes[parent as int].children, self@.nodes.len(), tag@)
            } else {
                Seq::empty()
            }),
    {
        let mut out: Vec<NodeId> = Vec::new();
        if parent < self.nodes.len() {
            let kids = &self.nodes[parent].children;
            tag_below_into(self.nodes.as_slice(), kids, kids.len(), self.nodes.len(), tag, &mut out);
            assert(kids@.take(kids@.len() as int) =~= kids@);
            assert(out@ =~= tag_below_rev(self@.nodes, self@.nodes[parent as int].children, self@.nodes.len(), tag@));
        }
        out
    }

    /// Every element named `tag`, in document order.
    pub fn get_elements_by_tag(&self, tag: &str) -> (r: Vec<NodeId>)
        ensures
            r@ == tagged(self@, tag@),
    {
        let order = self.order();
        let ghost p = |i: NodeId| i < self@.nodes.len() && has_tag(self@.nodes[i as int], tag@);
        let mut out: Vec<NodeId> = Vec::new();
        let mut k: usize = 0;
        while k < order.len()
            invariant
                order@ == doc_order(self@.nodes),
                k <= order@.len(),
                p == (|i: NodeId| i < self@.nodes.len() && has_tag(self@.nodes[i as int], tag@)),
                out@ == order@.take(k as int).filter(p),
            decreases order@.len() - k,
        {
            let id = order[k];
            proof { lemma_filter_step(order@, k as int, p); }
            if id < self.nodes.len() {
                if let Some(t) = self.nodes[id].tag_name() {
                    if str_eq(t, tag) {
                        out.push(id);
                    }
                }
            }
            k = k + 1;
        }
        assert(order@.take(k as int) =~= order@);
        out
    }

    pub fn get_attribute(&self, node_id: NodeId, name: &str) -> (r: Option<&str>)
        ensures
            opt_str_view(r) == (if node_id < self@.nodes.len() {
                attr_of(self@.nodes[node_id as int].data, name@)
            } else {
                None
            }),
    {
        if node_id < self.nodes.len() {
            self.nodes[node_id].attr(name)
        } else {
            None
        }
    }

    pub fn get_text_content(&self, node_id: NodeId) -> (r: String)
        ensures
            r@ == doc_text(self@, node_id),
    {
        let mut out = String::new();
        if node_id < self.nodes.len() {
            text_into(&self.nodes[node_id], self.nodes.as_slice(), self.nodes.len(), &mut out);
        }
        out
    }

    /// Tag name of a node, empty for anything but an element.
    pub fn get_tag_name(&self, node_id: NodeId) -> (r: &str)
        ensures
            r@ == (if node_id < self@.nodes.len() {
                match tag_of(self@.nodes[node_id as int].data) {
                    Some(t) => t,
                    None => Seq::empty(),
                }
            } else {
                Seq::empty()
            }),
    {
        proof { reveal_strlit(""); }
        if node_id < self.nodes.len() {
            match self.nodes[node_id].tag_name() {
                Some(t) => t,
                None => "",
            }
        } else {
            ""
        }
    }

    /// The sibling after `node_id` in its parent's children. Where the links
    /// agree this is the inverse of `get_prev_sibling`:
    /// `lemma_siblings_inverse`.
    pub fn get_next_sibling(&self, node_id: NodeId) -> (r: Option<NodeId>)
        requires
            doc_wf(self@),
        ensures
            r == next_sibling_spec(self@, node_id),
    {
        if node_id >= self.nodes.len() {
            return None;
        }
        match self.nodes[node_id].parent {
            Some(p) => {
                let sib = &self.nodes[p].children;
                let n = sib.len();
                match position(sib, node_id) {
                    Some(i) => if i + 1 < n {
                        Some(sib[i + 1])
                    } else {
                        None
                    },
                    None => None,
                }
            },
            None => None,
        }
    }

    pub fn get_prev_sibling(&self, node_id: NodeId) -> (r: Option<NodeId>)
        requires
            doc_wf(self@),
        ensures
            r == prev_sibling_spec(self@, node_id),
    {
        if node_id >= self.nodes.len() {
            return None;
        }
        match self.nodes[node_id].parent {
            Some(p) => {
                let sib = &self.nodes[p].children;
                match position(sib, node_id) {
                    Some(i) => if i == 0 {
                        None
                    } else {
                        Some(sib[i - 1])
                    },
                    None => None,
                }
            },
            None => None,
        }
    }
}

/// Index of the first occurrence of `x` in `v`.
pub fn position(v: &Vec<NodeId>, x: NodeId) -> (r: Option<usize>)
    ensures
        match r {
            Some(i) => index_of(v@, x) == Some(i as int) && i < v@.len(),
            None => index_of(v@, x) is None,
        },
{
    let mut i: usize = 0;
    assert(v@.skip(0) =~= v@);
    while i < v.len()
        invariant
            i <= v@.len(),
            index_of(v@, x) == (match index_of(v@.skip(i as int), x) {
                Some(j) => Some(j + i),
                None => None,
            }),
        decreases v@.len() - i,
    {
        assert(v@.skip(i as int).drop_first() =~= v@.skip(i + 1));
        if v[i] == x {
            return Some(i);
        }
        i = i + 1;
    }
    None
}

/// `v` without any occurrence of `x`.
pub fn without(v: &Vec<NodeId>, x: NodeId) -> (r: Vec<NodeId>)
    ensures
        r@ == v@.filter(other_than(x)),
{
    let ghost p = other_than(x);
    let mut out: Vec<NodeId> = Vec::new();
    let mut i: usize = 0;
    while i < v.len()
        invariant
            i <= v@.len(),
            p == other_than(x),
            out@ == v@.take(i as int).filter(p),
        decreases v@.len() - i,
    {
        proof { lemma_filter_step(v@, i as int, p); }
        if v[i] != x {
            out.push(v[i]);
        }
        i = i + 1;
    }
    assert(v@.take(i as int) =~= v@);
    out
}


// ── Releasing subtrees ─────────────────────────────────────────────────────

/// The slots released from `id`: the node itself, then its children's
/// subtrees from the last child to the first; the document node is never
/// released.
pub open spec fn rel(nodes: Seq<NodeView>, id: NodeId, f: nat) -> Seq<NodeId>
    decreases f, 0nat,
{
    if f == 0 || id == 0 || id >= nodes.len() {
        Seq::empty()
    } else {
        seq![id] + rel_list(nodes, nodes[id as int].children.reverse(), (f - 1) as nat)
    }
}

pub open spec fn rel_list(nodes: Seq<NodeView>, ids: Seq<NodeId>, f: nat) -> Seq<NodeId>
    decreases f, ids.len() + 1,
{
    if ids.len() == 0 {
        Seq::empty()
    } else {
        rel(nodes, ids[0], f) + rel_list(nodes, ids.drop_first(), f)
    }
}

pub open spec fn rel_size(nodes: Seq<NodeView>, id: NodeId, f: nat) -> nat
    decreases f, 0nat,
{
    if f == 0 || id == 0 || id >= nodes.len() {
        1
    } else {
        1 + rel_size_list(nodes, nodes[id as int].children.reverse(), (f - 1) as nat)
    }
}

pub open spec fn rel_size_list(nodes: Seq<NodeView>, ids: Seq<NodeId>, f: nat) -> nat
    decreases f, ids.len() + 1,
{
    if ids.len() == 0 {
        0
    } else {
        rel_size(nodes, ids[0], f) + rel_size_list(nodes, ids.drop_first(), f)
    }
}

pub open spec fn rel_stack(nodes: Seq<NodeView>, s: Seq<(NodeId, usize)>) -> Seq<NodeId>
    decreases s.len(),
{
    if s.len() == 0 {
        Seq::empty()
    } else {
        rel(nodes, s.last().0, s.last().1 as nat) + rel_stack(nodes, s.drop_last())
    }
}

pub open spec fn rel_stack_size(nodes: Seq<NodeView>, s: Seq<(NodeId, usize)>) -> nat
    decreases s.len(),
{
    if s.len() == 0 {
        0
    } else {
        rel_size(nodes, s.last().0, s.last().1 as nat) + rel_stack_size(nodes, s.drop_last())
    }
}

pub open spec fn fwd_pairs(ids: Seq<NodeId>, g: usize) -> Seq<(NodeId, usize)> {
    ids.map_values(|i: NodeId| (i, g))
}

proof fn lemma_push_fwd(nodes: Seq<NodeView>, s: Seq<(NodeId, usize)>, ids: Seq<NodeId>, g: usize)
    ensures
        rel_stack(nodes, s + fwd_pairs(ids, g)) == rel_list(nodes, ids.reverse(), g as nat) + rel_stack(nodes, s),
        rel_stack_size(nodes, s + fwd_pairs(ids, g)) == rel_size_list(nodes, ids.reverse(), g as nat)
            + rel_stack_size(nodes, s),
    decreases ids.len(),
{
    if ids.len() == 0 {
        assert(s + fwd_pairs(ids, g) =~= s);
        assert(ids.reverse() =~= Seq::<NodeId>::empty());
        assert(rel_list(nodes, ids.reverse(), g as nat) + rel_stack(nodes, s) =~= rel_stack(nodes, s));
    } else {
        let init = ids.drop_last();
        lemma_push_fwd(nodes, s, init, g);
        let t = s + fwd_pairs(ids, g);
        assert(t.drop_last() =~= s + fwd_pairs(init, g));
        assert(ids.reverse() =~= seq![ids.last()] + init.reverse());
        assert((seq![ids.last()] + init.reverse()).drop_first() =~= init.reverse());
        assert(rel_stack(nodes, t) =~= rel_list(nodes, ids.reverse(), g as nat) + rel_stack(nodes, s));
    }
}

proof fn lemma_rel_range(nodes: Seq<NodeView>, id: NodeId, f: nat)
    ensures
        forall|k: int| 0 <= k < rel(nodes, id, f).len() ==> 0 < #[trigger] rel(nodes, id, f)[k] < nodes.len(),
    decreases f, 0nat,
{
    if f == 0 || id == 0 || id >= nodes.len() {
    } else {
        let l = nodes[id as int].children.reverse();
        lemma_rel_list_range(nodes, l, (f - 1) as nat);
        let b = rel_list(nodes, l, (f - 1) as nat);
        assert forall|k: int| 0 <= k < (seq![id] + b).len() implies 0 < #[trigger] (seq![id] + b)[k] < nodes.len() by {
            if k > 0 {
                assert((seq![id] + b)[k] == b[k - 1]);
            }
        }
    }
}

proof fn lemma_rel_list_range(nodes: Seq<NodeView>, ids: Seq<NodeId>, f: nat)
    ensures
        forall|k: int| 0 <= k < rel_list(nodes, ids, f).len() ==> 0 < #[trigger] rel_list(nodes, ids, f)[k] < nodes.len(),
    decreases f, ids.len() + 1,
{
    if ids.len() > 0 {
        lemma_rel(nodes, ids[0], f);
        lemma_rel_list_range(nodes, ids.drop_first(), f);
        let a = rel(nodes, ids[0], f);
        let b = rel_list(nodes, ids.drop_first(), f);
        assert forall|k: int| 0 <= k < (a + b).len() implies 0 < #[trigger] (a + b)[k] < nodes.len() by {
            if k < a.len() {
                assert((a + b)[k] == a[k]);
            } else {
                assert((a + b)[k] == b[k - a.len()]);
            }
        }
    }
}

proof fn lemma_rel(nodes: Seq<NodeView>, id: NodeId, f: nat)
    ensures
        forall|k: int| 0 <= k < rel(nodes, id, f).len() ==> 0 < #[trigger] rel(nodes, id, f)[k] < nodes.len(),
    decreases f, 1nat,
{
    lemma_rel_range(nodes, id, f);
}

/// Order in which `release_subtree(root)` frees slots.
fn release_order(nodes: &Vec<Node>, root: NodeId) -> (out: Vec<NodeId>)
    ensures
        out@ == rel(nodes_view(nodes@), root, nodes@.len() as nat),
{
    let ghost nv = nodes_view(nodes@);
    let mut stack: Vec<(NodeId, usize)> = Vec::new();
    stack.push((root, nodes.len()));
    proof {
        let s = stack@;
        assert(s.drop_last() =~= Seq::<(NodeId, usize)>::empty());
        assert(s.last() == (root, nodes@.len() as usize));
        assert(rel_stack(nv, Seq::<(NodeId, usize)>::empty()) == Seq::<NodeId>::empty());
        assert(rel_stack(nv, s) =~= rel(nv, root, nodes@.len() as nat) + Seq::<NodeId>::empty());
    }
    let mut out: Vec<NodeId> = Vec::new();
    assert(out@ + rel_stack(nv, stack@) =~= rel(nv, root, nodes@.len() as nat));
    while stack.len() > 0
        invariant
            nv == nodes_view(nodes@),
            out@ + rel_stack(nv, stack@) == rel(nv, root, nodes@.len() as nat),
        decreases rel_stack_size(nv, stack@),
    {
        let ghost before = stack@;
        let (id, f) = stack.pop().unwrap();
        assert(before.drop_last() == stack@);
        assert(before.last() == (id, f));
        if f == 0 || id == 0 || id >= nodes.len() {
            assert(out@ + rel_stack(nv, stack@) =~= out@ + rel_stack(nv, before));
            continue;
        }
        let ghost out0 = out@;
        out.push(id);
        let ghost mid = stack@;
        let kids = &nodes[id].children;
        let mut j: usize = 0;
        while j < kids.len()
            invariant
                j <= kids@.len(),
                f > 0,
                stack@ == mid + fwd_pairs(kids@.take(j as int), (f - 1) as usize),
            decreases kids@.len() - j,
        {
            stack.push((kids[j], f - 1));
            j = j + 1;
            assert(fwd_pairs(kids@.take(j as int), (f - 1) as usize) =~= fwd_pairs(kids@.take(j - 1), (f - 1) as usize).push((kids@[j - 1], (f - 1) as usize)));
        }
        assert(kids@.take(j as int) =~= kids@);
        proof {
            lemma_push_fwd(nv, mid, nv[id as int].children, (f - 1) as usize);
        }
        assert(out@ + rel_stack(nv, stack@) =~= out0 + rel_stack(nv, before));
    }
    assert(out@ + Seq::<NodeId>::empty() =~= out@);
    out
}

pub open spec fn cleared(n: NodeView) -> NodeView {
    NodeView { id: n.id, data: DataView::Text { content: Seq::empty() }, parent: None, children: Seq::empty() }
}

/// `d` with the slots of `order` reset to empty text nodes and appended to
/// the free list.
pub open spec fn released(d: DocView, order: Seq<NodeId>) -> DocView {
    DocView {
        nodes: Seq::new(d.nodes.len(), |i: int| if order.contains(i as NodeId) {
            cleared(d.nodes[i])
        } else {
            d.nodes[i]
        }),
        url: d.url,
        free: d.free + order,
    }
}

pub open spec fn release_spec(d: DocView, root: NodeId) -> DocView {
    released(d, rel(d.nodes, root, d.nodes.len()))
}

/// Releasing the subtrees of `ids`, one after the other.
pub open spec fn release_all(d: DocView, ids: Seq<NodeId>) -> DocView
    decreases ids.len(),
{
    if ids.len() == 0 {
        d
    } else {
        release_all(release_spec(d, ids[0]), ids.drop_first())
    }
}

pub open spec fn clear_children(d: DocView, id: NodeId) -> DocView {
    if id < d.nodes.len() {
        with_nodes(d, d.nodes.update(id as int, with_children(d.nodes[id as int], Seq::empty())))
    } else {
        d
    }
}

pub open spec fn kids_of(d: DocView, id: NodeId) -> Seq<NodeId> {
    if id < d.nodes.len() {
        d.nodes[id as int].children
    } else {
        Seq::empty()
    }
}

// ── Cloning across documents ───────────────────────────────────────────────

pub open spec fn empty_text() -> DataView {
    DataView::Text { content: Seq::empty() }
}

/// `deep_clone_inner(src, id, depth)`: the copy of `id` and its descendants;
/// below depth 512 a node is replaced by an empty text node.
pub open spec fn clone_tree(d: DocView, src: Seq<NodeView>, id: NodeId, depth: int) -> (DocView, NodeId)
    decreases 513 - depth, 0nat,
{
    if depth > 512 || id >= src.len() {
        create_spec(d, empty_text())
    } else {
        let (d1, nid) = create_spec(d, src[id as int].data);
        (clone_kids(d1, nid, src, src[id as int].children, depth + 1), nid)
    }
}

pub open spec fn clone_kids(d: DocView, parent: NodeId, src: Seq<NodeView>, kids: Seq<NodeId>, depth: int) -> DocView
    decreases 513 - depth, kids.len() + 1,
{
    if kids.len() == 0 || depth > 513 {
        d
    } else {
        let (d1, c) = clone_tree(d, src, kids[0], depth);
        clone_kids(append_spec(d1, parent, c), parent, src, kids.drop_first(), depth)
    }
}

/// Clones of `ids`, each appended to `parent` in turn.
pub open spec fn clone_all(d: DocView, parent: NodeId, src: Seq<NodeView>, ids: Seq<NodeId>) -> DocView
    decreases ids.len(),
{
    if ids.len() == 0 {
        d
    } else {
        let (d1, c) = clone_tree(d, src, ids[0], 0);
        clone_all(append_spec(d1, parent, c), parent, src, ids.drop_first())
    }
}

pub open spec fn xhtml_ns() -> Seq<char> {
    "http://www.w3.org/1999/xhtml"@
}

pub open spec fn element_data(tag: Seq<char>, attrs: Seq<AttrView>) -> DataView {
    DataView::Element { tag_name: tag, namespace: xhtml_ns(), attrs }
}

pub open spec fn attr_index(attrs: Seq<AttrView>, name: Seq<char>) -> Option<int>
    decreases attrs.len(),
{
    if attrs.len() == 0 {
        None
    } else if attrs[0].name == name {
        Some(0)
    } else {
        match attr_index(attrs.drop_first(), name) {
            Some(i) => Some(i + 1),
            None => None,
        }
    }
}

pub open spec fn set_attr_spec(attrs: Seq<AttrView>, name: Seq<char>, value: Seq<char>) -> Seq<AttrView> {
    match attr_index(attrs, name) {
        Some(i) => attrs.update(i, AttrView { name: attrs[i].name, value }),
        None => attrs.push(AttrView { name, value }),
    }
}

pub open spec fn map_attrs(d: DocView, id: NodeId, f: spec_fn(Seq<AttrView>) -> Seq<AttrView>) -> DocView {
    if id < d.nodes.len() {
        match d.nodes[id as int].data {
            DataView::Element { tag_name, namespace, attrs } => with_nodes(d, d.nodes.update(
                id as int,
                with_data(d.nodes[id as int], DataView::Element { tag_name, namespace, attrs: f(attrs) }),
            )),
            _ => d,
        }
    } else {
        d
    }
}

/// Attributes not named `name`.
pub open spec fn named_other(name: Seq<char>) -> spec_fn(AttrView) -> bool {
    |x: AttrView| x.name != name
}

/// The document after setting attribute `name` of element `id` to `value`.
pub open spec fn with_attribute(d: DocView, id: NodeId, name: Seq<char>, value: Seq<char>) -> DocView {
    map_attrs(d, id, |a: Seq<AttrView>| set_attr_spec(a, name, value))
}

/// The document after removing every attribute `name` of element `id`.
pub open spec fn without_attribute(d: DocView, id: NodeId, name: Seq<char>) -> DocView {
    map_attrs(d, id, |a: Seq<AttrView>| a.filter(named_other(name)))
}

pub open spec fn has_child_tagged(d: DocView, h: NodeId, tag: Seq<char>) -> bool {
    exists|k: int|
        0 <= k < d.nodes[h as int].children.len() && #[trigger] d.nodes[h as int].children[k] < d.nodes.len()
            && has_tag(d.nodes[d.nodes[h as int].children[k] as int], tag)
}

pub open spec fn inject_base_spec(d: DocView, url: Seq<char>) -> DocView {
    match find_tag(d, "head"@) {
        None => d,
        Some(h) => if has_child_tagged(d, h, "base"@) {
            d
        } else {
            let (d1, b) = create_spec(d, element_data("base"@, seq![AttrView { name: "href"@, value: url }]));
            let n1 = d1.nodes.update(b as int, with_parent(d1.nodes[b as int], Some(h)));
            with_nodes(d1, n1.update(h as int, with_children(n1[h as int], n1[h as int].children.insert(0, b))))
        },
    }
}

pub open spec fn set_text_spec(d: DocView, id: NodeId, text: Seq<char>) -> DocView {
    let d2 = release_all(clear_children(d, id), kids_of(d, id));
    let (d3, t) = create_spec(d2, DataView::Text { content: text });
    append_spec(d3, id, t)
}

/// The text of the first `<title>`, empty when there is none.
pub open spec fn title_of(d: DocView) -> Seq<char> {
    match find_tag(d, "title"@) {
        Some(t) => doc_text(d, t),
        None => Seq::empty(),
    }
}

pub open spec fn set_title_spec(d: DocView, title: Seq<char>) -> DocView {
    match find_tag(d, "title"@) {
        Some(t) => set_text_spec(d, t, title),
        None => match find_tag(d, "head"@) {
            Some(h) => {
                let (d1, el) = create_spec(d, element_data("title"@, Seq::empty()));
                let (d2, tx) = create_spec(d1, DataView::Text { content: title });
                append_spec(append_spec(d2, el, tx), h, el)
            },
            None => d,
        },
    }
}

/// A script element without `src` whose trimmed text is not empty.
pub open spec fn inline_script(nodes: Seq<NodeView>, id: NodeId) -> Option<Seq<char>> {
    if id < nodes.len() && tag_of(nodes[id as int].data) == Some("script"@) && attr_of(
        nodes[id as int].data,
        "src"@,
    ) is None && trim(text_of(nodes, nodes[id as int], nodes.len())).len() > 0 {
        Some(trim(text_of(nodes, nodes[id as int], nodes.len())))
    } else {
        None
    }
}

pub open spec fn scripts_in(nodes: Seq<NodeView>, ids: Seq<NodeId>) -> Seq<Seq<char>>
    decreases ids.len(),
{
    if ids.len() == 0 {
        Seq::empty()
    } else {
        scripts_in(nodes, ids.drop_last()) + match inline_script(nodes, ids.last()) {
            Some(t) => seq![t],
            None => Seq::empty(),
        }
    }
}

pub open spec fn strings_view(v: Seq<String>) -> Seq<Seq<char>> {
    v.map_values(|s: String| s@)
}

impl Document {
    /// Frees `root` and everything below it (never the document node).
    fn release_subtree(&mut self, root: NodeId)
        requires
            doc_wf(old(self)@),
        ensures
            final(self)@ == release_spec(old(self)@, root),
            doc_wf(final(self)@),
    {
        if root == 0 {
            assert(released(self@, Seq::empty()) =~= self@);
            return;
        }
        let order = release_order(&self.nodes, root);
        let ghost d0 = self@;
        proof { lemma_rel(d0.nodes, root, d0.nodes.len()); }
        let mut k: usize = 0;
        let n = self.nodes.len();
        assert(self@ =~= released(d0, order@.take(0)));
        while k < order.len()
            invariant
                k <= order@.len(),
                order@ == rel(d0.nodes, root, d0.nodes.len()),
                forall|j: int| 0 <= j < order@.len() ==> 0 < #[trigger] order@[j] < d0.nodes.len(),
                self@ == released(d0, order@.take(k as int)),
                self.nodes@.len() == d0.nodes.len(),
                d0.nodes.len() == n,
                doc_wf(d0),
            decreases order@.len() - k,
        {
            let id = order[k];
            let ghost prev = self@;
            self.nodes[id].parent = None;
            self.nodes[id].children = Vec::new();
            self.nodes[id].data = NodeData::Text { content: String::new() };
            self.free_list.push(id);
            k = k + 1;
            proof {
                let t = order@.take(k as int);
                assert(t =~= order@.take(k - 1).push(id));
                assert forall|x: NodeId| #[trigger] t.contains(x) == (order@.take(k - 1).contains(x) || x == id) by {
                    if x == id {
                        assert(t[k - 1] == id);
                    }
                    if order@.take(k - 1).contains(x) {
                        let w = choose|w: int| 0 <= w < k - 1 && #[trigger] order@.take(k - 1)[w] == x;
                        assert(t[w] == x);
                    }
                    if t.contains(x) && x != id {
                        let w = choose|w: int| 0 <= w < t.len() && #[trigger] t[w] == x;
                        assert(w < k - 1);
                        assert(order@.take(k - 1)[w] == x);
                    }
                }
                assert forall|i: int| 0 <= i < d0.nodes.len() implies #[trigger] self@.nodes[i] == released(d0, t).nodes[i] by {
                    assert(t.contains(i as NodeId) == (order@.take(k - 1).contains(i as NodeId) || i as NodeId == id));
                    if i == id {
                        assert(self@.nodes[i] == cleared(prev.nodes[i]));
                        assert(prev.nodes[i].id == d0.nodes[i].id);
                    } else {
                        assert(self@.nodes[i] == prev.nodes[i]);
                    }
                }
                assert(self@.nodes =~= released(d0, t).nodes);
                assert(self@.free =~= released(d0, t).free);
            }
        }
        assert(order@.take(k as int) =~= order@);
        proof {
            let d = self@;
            assert forall|i: int| 0 <= i < d.free.len() implies 0 < #[trigger] d.free[i] < d.nodes.len() by {
                if i >= d0.free.len() {
                    assert(d.free[i] == order@[i - d0.free.len()]);
                }
            }
            assert forall|i: int, c: int|
                0 <= i < d.nodes.len() && 0 <= c < d.nodes[i].children.len() implies #[trigger] d.nodes[i].children[c]
                    < d.nodes.len() by {
                assert(d.nodes[i] == d0.nodes[i] || d.nodes[i] == cleared(d0.nodes[i]));
            }
            assert forall|i: int| 0 <= i < d.nodes.len() implies (#[trigger] d.nodes[i].parent matches Some(p) ==> p < d.nodes.len()) by {
                assert(d.nodes[i] == d0.nodes[i] || d.nodes[i] == cleared(d0.nodes[i]));
            }
        }
    }

    fn release_children(&mut self, kids: &Vec<NodeId>)
        requires
            doc_wf(old(self)@),
        ensures
            final(self)@ == release_all(old(self)@, kids@),
            doc_wf(final(self)@),
    {
        let ghost d0 = self@;
        let mut k: usize = 0;
        assert(kids@.skip(0) =~= kids@);
        while k < kids.len()
            invariant
                k <= kids@.len(),
                doc_wf(self@),
                release_all(d0, kids@) == release_all(self@, kids@.skip(k as int)),
            decreases kids@.len() - k,
        {
            assert(kids@.skip(k as int).drop_first() =~= kids@.skip(k + 1));
            self.release_subtree(kids[k]);
            k = k + 1;
        }
    }

    pub fn set_attribute(&mut self, node_id: NodeId, name: &str, value: &str)
        requires
            doc_wf(old(self)@),
        ensures
            final(self)@ == with_attribute(old(self)@, node_id, name@, value@),
            doc_wf(final(self)@),
    {
        let ghost d0 = self@;
        if node_id < self.nodes.len() {
            if let NodeData::Element { attrs, .. } = &mut self.nodes[node_id].data {
                let ghost a0 = attrs@;
                match find_attr_pos(attrs, name) {
                    Some(i) => {
                        proof {
                            lemma_attr_index(attrs_view(a0), name@);
                            let av = attrs_view(a0);
                            let i2 = attr_index(av, name@).unwrap();
                            if i2 < i {
                                assert(av[i2] == a0[i2]@);
                            } else if i2 > i {
                                assert(av[i as int] == a0[i as int]@);
                            }
                            assert(attr_index(av, name@) == Some(i as int));
                        }
                        attrs[i].value = value.to_owned();
                        assert(attrs_view(attrs@) =~= set_attr_spec(attrs_view(a0), name@, value@));
                    },
                    None => {
                        proof {
                            lemma_attr_index(attrs_view(a0), name@);
                            let av = attrs_view(a0);
                            if attr_index(av, name@) is Some {
                                let i2 = attr_index(av, name@).unwrap();
                                assert(av[i2] == a0[i2]@);
                            }
                        }
                        attrs.push(Attribute { name: name.to_owned(), value: value.to_owned() });
                        assert(attrs_view(attrs@) =~= set_attr_spec(attrs_view(a0), name@, value@));
                    },
                }
            }
            assert(self@ =~= with_attribute(d0, node_id, name@, value@));
        }
    }

    pub fn remove_attribute(&mut self, node_id: NodeId, name: &str)
        requires
            doc_wf(old(self)@),
        ensures
            final(self)@ == without_attribute(old(self)@, node_id, name@),
            doc_wf(final(self)@),
    {
        let ghost d0 = self@;
        if node_id < self.nodes.len() {
            if let NodeData::Element { attrs, .. } = &mut self.nodes[node_id].data {
                let ghost a0 = attrs@;
                let ghost p = named_other(name@);
                let mut kept: Vec<Attribute> = Vec::new();
                let mut i: usize = 0;
                while i < attrs.len()
                    invariant
                        i <= attrs@.len(),
                        attrs@ == a0,
                        p == named_other(name@),
                        attrs_view(kept@) == attrs_view(a0).take(i as int).filter(p),
                    decreases attrs@.len() - i,
                {
                    proof {
                        reveal(Seq::filter);
                        assert(attrs_view(a0).take(i + 1).drop_last() =~= attrs_view(a0).take(i as int));
                    }
                    if !str_eq(attrs[i].name.as_str(), name) {
                        let a = attrs[i].clone();
                        kept.push(a);
                        assert(attrs_view(kept@) =~= attrs_view(a0).take(i as int).filter(p).push(attrs_view(a0)[i as int]));
                    }
                    i = i + 1;
                }
                assert(attrs_view(a0).take(i as int) =~= attrs_view(a0));
                *attrs = kept;
            }
            assert(self@ =~= without_attribute(d0, node_id, name@));
        }
    }

    /// Texts of the inline scripts (those without `src`), trimmed, in
    /// document order, leaving out empty ones; script bodies are not searched.
    pub fn collect_inline_scripts(&self) -> (r: Vec<String>)
        ensures
            strings_view(r@) == scripts_in(self@.nodes, pre_list(self@.nodes, seq![0usize], self@.nodes.len(), true)),
    {
        inline_scripts(self.nodes.as_slice())
    }

    /// Puts `<base href=url>` first in `<head>` unless `<head>` already has
    /// a `<base>` child. A second call changes nothing:
    /// `crate::dom::frame::lemma_inject_base_twice`.
    pub fn inject_base(&mut self, url: &str)
        requires
            doc_wf(old(self)@),
        ensures
            final(self)@ == inject_base_spec(old(self)@, url@),
            doc_wf(final(self)@),
    {
        let ghost d0 = self@;
        if let Some(head_id) = self.find_element("head") {
            proof { lemma_found_in_range(d0, "head"@); }
            if self.has_child_tagged(head_id, "base") {
                return;
            }
            let mut attrs = Vec::new();
            attrs.push(Attribute { name: "href".to_owned(), value: url.to_owned() });
            let base_id = self.create_node(NodeData::Element {
                tag_name: "base".to_owned(),
                namespace: "http://www.w3.org/1999/xhtml".to_owned(),
                attrs,
            });
            let ghost d1 = self@;
            self.nodes[base_id].parent = Some(head_id);
            self.nodes[head_id].children.insert(0, base_id);
            proof {
                let d = self@;
                assert(attrs_view(attrs@) =~= seq![AttrView { name: "href"@, value: url@ }]);
                let n1 = d1.nodes.update(base_id as int, with_parent(d1.nodes[base_id as int], Some(head_id)));
                assert(d.nodes =~= n1.update(head_id as int, with_children(n1[head_id as int], n1[head_id as int].children.insert(0, base_id))));
                assert forall|i: int, c: int|
                    0 <= i < d.nodes.len() && 0 <= c < d.nodes[i].children.len() implies #[trigger] d.nodes[i].children[c]
                        < d.nodes.len() by {
                    if i == head_id {
                        if c > 0 {
                            assert(d.nodes[i].children[c] == d1.nodes[i].children[c - 1]);
                        }
                    } else {
                        assert(d.nodes[i].children == d1.nodes[i].children);
                    }
                }
                assert forall|i: int| 0 <= i < d.nodes.len() implies (#[trigger] d.nodes[i].parent matches Some(p) ==> p < d.nodes.len()) by {
                    if i != base_id {
                        assert(d.nodes[i].parent == d1.nodes[i].parent);
                    }
                }
            }
        }
    }
}

impl Document {
    /// Whether a child of `h` is an element named `tag`.
    fn has_child_tagged(&self, h: NodeId, tag: &str) -> (r: bool)
        requires
            h < self@.nodes.len(),
        ensures
            r == has_child_tagged(self@, h, tag@),
    {
        let kids = &self.nodes[h].children;
        let mut k: usize = 0;
        while k < kids.len()
            invariant
                h < self@.nodes.len(),
                k <= kids@.len(),
                kids@ == self@.nodes[h as int].children,
                forall|j: int| 0 <= j < k ==> !(#[trigger] kids@[j] < self@.nodes.len() && has_tag(self@.nodes[kids@[j] as int], tag@)),
            decreases kids@.len() - k,
        {
            let c = kids[k];
            if c < self.nodes.len() {
                if let Some(t) = self.nodes[c].tag_name() {
                    if str_eq(t, tag) {
                        return true;
                    }
                }
            }
            k = k + 1;
        }
        false
    }
}

proof fn lemma_attr_index(attrs: Seq<AttrView>, name: Seq<char>)
    ensures
        match attr_index(attrs, name) {
            Some(i) => 0 <= i < attrs.len() && attrs[i].name == name && (forall|j: int| 0 <= j < i ==> attrs[j].name != name)
                && attr_lookup_is(attrs, name, Some(attrs[i].value)),
            None => (forall|j: int| 0 <= j < attrs.len() ==> attrs[j].name != name) && attr_lookup_is(attrs, name, None),
        },
    decreases attrs.len(),
{
    if attrs.len() > 0 {
        lemma_attr_index(attrs.drop_first(), name);
        if attrs[0].name != name {
            match attr_index(attrs.drop_first(), name) {
                Some(i) => {
                    assert forall|j: int| 0 <= j < i + 1 implies attrs[j].name != name by {
                        if j > 0 {
                            assert(attrs[j] == attrs.drop_first()[j - 1]);
                        }
                    }
                },
                None => {
                    assert forall|j: int| 0 <= j < attrs.len() implies attrs[j].name != name by {
                        if j > 0 {
                            assert(attrs[j] == attrs.drop_first()[j - 1]);
                        }
                    }
                },
            }
        }
    }
}

pub open spec fn attr_lookup_is(attrs: Seq<AttrView>, name: Seq<char>, v: Option<Seq<char>>) -> bool {
    crate::dom::node::attr_lookup(attrs, name) == v
}

pub(crate) proof fn lemma_found_in_range(d: DocView, tag: Seq<char>)
    ensures
        find_tag(d, tag) matches Some(h) ==> h < d.nodes.len(),
{
    let p = |i: NodeId| i < d.nodes.len() && has_tag(d.nodes[i as int], tag);
    let s = doc_order(d.nodes).filter(p);
    if s.len() > 0 {
        Seq::lemma_filter_pred(doc_order(d.nodes), p, 0);
    }
}


impl Document {
    /// Replaces the children of `node_id` with one text node holding `text`;
    /// the old subtrees are released first. The text then reads back as set:
    /// `lemma_text_after_set`.
    pub fn set_text_content(&mut self, node_id: NodeId, text: &str)
        requires
            doc_wf(old(self)@),
            node_id < old(self)@.nodes.len(),
        ensures
            final(self)@ == set_text_spec(old(self)@, node_id, text@),
            doc_wf(final(self)@),
    {
        let ghost d0 = self@;
        let old_children = self.nodes[node_id].children.clone();
        assert(old_children@ == kids_of(d0, node_id));
        self.nodes[node_id].children = Vec::new();
        proof {
            assert(self@ =~= clear_children(d0, node_id));
            let d = self@;
            assert forall|i: int, k: int|
                0 <= i < d.nodes.len() && 0 <= k < d.nodes[i].children.len() implies #[trigger] d.nodes[i].children[k]
                    < d.nodes.len() by {
                assert(d.nodes[i].children == d0.nodes[i].children);
            }
            assert forall|i: int| 0 <= i < d.nodes.len() implies (#[trigger] d.nodes[i].parent matches Some(p) ==> p < d.nodes.len()) by {
                assert(d.nodes[i].parent == d0.nodes[i].parent);
            }
        }
        self.release_children(&old_children);
        proof { lemma_release_all_len(clear_children(d0, node_id), old_children@); }
        let text_id = self.create_node(NodeData::Text { content: text.to_owned() });
        self.append_child(node_id, text_id);
    }

    pub fn create_element_node(&mut self, tag: &str) -> (id: NodeId)
        requires
            doc_wf(old(self)@),
        ensures
            (final(self)@, id) == create_spec(old(self)@, element_data(ascii_lower(tag@), Seq::empty())),
            doc_wf(final(self)@),
    {
        let attrs: Vec<Attribute> = Vec::new();
        assert(attrs_view(attrs@) =~= Seq::<AttrView>::empty());
        self.create_node(NodeData::Element {
            tag_name: ascii_lower_str(tag),
            namespace: "http://www.w3.org/1999/xhtml".to_owned(),
            attrs,
        })
    }

    pub fn create_text_node(&mut self, text: &str) -> (id: NodeId)
        requires
            doc_wf(old(self)@),
        ensures
            (final(self)@, id) == create_spec(old(self)@, DataView::Text { content: text@ }),
            doc_wf(final(self)@),
    {
        self.create_node(NodeData::Text { content: text.to_owned() })
    }

    /// Copies `src_node_id` and its descendants from `src` into this arena
    /// and returns the id of the copy (not attached to any parent). The copy
    /// serializes as its source: `crate::dom::copy::lemma_clone_serializes_alike`.
    pub fn deep_clone_from(&mut self, src: &Document, src_node_id: NodeId) -> (id: NodeId)
        requires
            doc_wf(old(self)@),
        ensures
            (final(self)@, id) == clone_tree(old(self)@, src@.nodes, src_node_id, 0),
            doc_wf(final(self)@),
            id < final(self)@.nodes.len(),
            final(self)@.nodes.len() >= old(self)@.nodes.len(),
    {
        self.deep_clone_inner(src, src_node_id, 0)
    }

    fn deep_clone_inner(&mut self, src: &Document, src_node_id: NodeId, depth: u32) -> (id: NodeId)
        requires
            doc_wf(old(self)@),
            depth <= 513,
        ensures
            (final(self)@, id) == clone_tree(old(self)@, src@.nodes, src_node_id, depth as int),
            doc_wf(final(self)@),
            id < final(self)@.nodes.len(),
            final(self)@.nodes.len() >= old(self)@.nodes.len(),
        decreases 513 - depth, 0nat,
    {
        if depth > 512 {
            let id = self.create_node(NodeData::Text { content: String::new() });
            return id;
        }
        let data = match src.get(src_node_id) {
            Some(node) => node.data.clone(),
            None => {
                let id = self.create_node(NodeData::Text { content: String::new() });
                return id;
            },
        };
        let new_id = self.create_node(data);
        let children = &src.nodes[src_node_id].children;
        self.clone_children(src, new_id, children, 0, depth + 1);
        assert(children@.skip(0) =~= children@);
        new_id
    }

    fn clone_children(&mut self, src: &Document, parent: NodeId, kids: &Vec<NodeId>, start: usize, depth: u32)
        requires
            doc_wf(old(self)@),
            parent < old(self)@.nodes.len(),
            start <= kids@.len(),
            1 <= depth <= 513,
        ensures
            final(self)@ == clone_kids(old(self)@, parent, src@.nodes, kids@.skip(start as int), depth as int),
            doc_wf(final(self)@),
            final(self)@.nodes.len() >= old(self)@.nodes.len(),
        decreases 513 - depth, kids@.len() - start + 1,
    {
        let ghost s = kids@.skip(start as int);
        if start >= kids.len() {
            assert(s.len() == 0);
            return;
        }
        let child = self.deep_clone_inner(src, kids[start], depth);
        self.append_child(parent, child);
        assert(s.drop_first() =~= kids@.skip(start + 1));
        self.clone_children(src, parent, kids, start + 1, depth);
    }

    /// Replaces the children of `node_id` with copies of `src_children`
    /// taken from `src_doc`; the old subtrees are released first. The node's
    /// children then serialize as the source elements:
    /// `crate::dom::copy::lemma_inner_html_serializes_alike`.
    pub fn replace_inner_html(&mut self, node_id: NodeId, src_doc: &Document, src_children: &[NodeId])
        requires
            doc_wf(old(self)@),
            node_id < old(self)@.nodes.len() || src_children@.len() == 0,
        ensures
            final(self)@ == clone_all(
                release_all(clear_children(old(self)@, node_id), kids_of(old(self)@, node_id)),
                node_id,
                src_doc@.nodes,
                src_children@,
            ),
            doc_wf(final(self)@),
    {
        let ghost d0 = self@;
        let old: Vec<NodeId> = if node_id < self.nodes.len() {
            self.nodes[node_id].children.clone()
        } else {
            Vec::new()
        };
        assert(old@ =~= kids_of(d0, node_id));
        if node_id < self.nodes.len() {
            self.nodes[node_id].children = Vec::new();
        }
        proof {
            assert(self@ =~= clear_children(d0, node_id));
            let d = self@;
            assert forall|i: int, k: int|
                0 <= i < d.nodes.len() && 0 <= k < d.nodes[i].children.len() implies #[trigger] d.nodes[i].children[k]
                    < d.nodes.len() by {
                assert(d.nodes[i].children == d0.nodes[i].children);
            }
            assert forall|i: int| 0 <= i < d.nodes.len() implies (#[trigger] d.nodes[i].parent matches Some(p) ==> p < d.nodes.len()) by {
                assert(d.nodes[i].parent == d0.nodes[i].parent);
            }
        }
        self.release_children(&old);
        proof { lemma_release_all_len(clear_children(d0, node_id), old@); }
        let mut k: usize = 0;
        assert(src_children@.skip(0) =~= src_children@);
        while k < src_children.len()
            invariant
                k <= src_children@.len(),
                doc_wf(self@),
                node_id < self@.nodes.len() || src_children@.len() == 0,
                clone_all(
                    release_all(clear_children(d0, node_id), kids_of(d0, node_id)),
                    node_id,
                    src_doc@.nodes,
                    src_children@,
                ) == clone_all(self@, node_id, src_doc@.nodes, src_children@.skip(k as int)),
            decreases src_children@.len() - k,
        {
            assert(src_children@.skip(k as int).drop_first() =~= src_children@.skip(k + 1));
            let new_id = self.deep_clone_from(src_doc, src_children[k]);
            self.append_child(node_id, new_id);
            k = k + 1;
        }
    }

    /// Text of the first `<title>`, empty when there is none.
    pub fn get_title(&self) -> (r: String)
        ensures
            r@ == title_of(self@),
    {
        match self.find_element("title") {
            Some(id) => self.get_text_content(id),
            None => String::new(),
        }
    }

    /// Sets the text of the first `<title>`, or adds a `<title>` to `<head>`.
    /// `get_title` then reads it back: `crate::dom::frame::lemma_title_after_set`.
    pub fn set_title(&mut self, title: &str)
        requires
            doc_wf(old(self)@),
        ensures
            final(self)@ == set_title_spec(old(self)@, title@),
            doc_wf(final(self)@),
    {
        let ghost d0 = self@;
        if let Some(title_id) = self.find_element("title") {
            proof { lemma_found_in_range(d0, "title"@); }
            self.set_text_content(title_id, title);
        } else if let Some(head_id) = self.find_element("head") {
            proof { lemma_found_in_range(d0, "head"@); reveal_strlit("title"); }
            let title_el = self.create_element_node("title");
            proof { assert(ascii_lower("title"@) =~= "title"@); }
            let text_id = self.create_text_node(title);
            self.append_child(title_el, text_id);
            self.append_child(head_id, title_el);
        }
    }
}

/// The elements named `tag` found by a stack walk of `ids` taken from the
/// last to the first, each with everything below it, at most `f` levels
/// down.
pub open spec fn tag_below_rev(nodes: Seq<NodeView>, ids: Seq<NodeId>, f: nat, tag: Seq<char>) -> Seq<NodeId>
    decreases f, ids.len() + 1,
{
    if ids.len() == 0 {
        Seq::empty()
    } else {
        tag_below_one(nodes, ids.last(), f, tag) + tag_below_rev(nodes, ids.drop_last(), f, tag)
    }
}

pub open spec fn tag_below_one(nodes: Seq<NodeView>, id: NodeId, f: nat, tag: Seq<char>) -> Seq<NodeId>
    decreases f, 0nat,
{
    if f == 0 || id >= nodes.len() {
        Seq::empty()
    } else {
        (if tag_of(nodes[id as int].data) == Some(tag) {
            seq![id]
        } else {
            Seq::empty()
        }) + tag_below_rev(nodes, nodes[id as int].children, (f - 1) as nat, tag)
    }
}

fn tag_below_into(nodes: &[Node], ids: &Vec<NodeId>, k: usize, f: usize, tag: &str, out: &mut Vec<NodeId>)
    requires
        k <= ids@.len(),
    ensures
        final(out)@ == old(out)@ + tag_below_rev(nodes_view(nodes@), ids@.take(k as int), f as nat, tag@),
    decreases f, k,
{
    let ghost nv = nodes_view(nodes@);
    let ghost o0 = out@;
    if k == 0 {
        assert(ids@.take(0) =~= Seq::<NodeId>::empty());
        assert(o0 + Seq::<NodeId>::empty() =~= o0);
        return;
    }
    let id = ids[k - 1];
    assert(ids@.take(k as int).last() == id);
    assert(ids@.take(k as int).drop_last() =~= ids@.take(k - 1));
    if f > 0 && id < nodes.len() {
        let node = &nodes[id];
        assert(nv[id as int] == node@);
        let hit = match node.tag_name() {
            Some(t) => str_eq(t, tag),
            None => false,
        };
        if hit {
            out.push(id);
        }
        let ghost o1 = out@;
        assert(o1 == o0 + (if tag_of(nv[id as int].data) == Some(tag@) { seq![id] } else { Seq::<NodeId>::empty() }));
        tag_below_into(nodes, &node.children, node.children.len(), f - 1, tag, out);
        assert(node.children@.take(node.children@.len() as int) =~= node.children@);
        assert(out@ =~= o0 + tag_below_one(nv, id, f as nat, tag@));
    } else {
        assert(tag_below_one(nv, id, f as nat, tag@) == Seq::<NodeId>::empty());
        assert(out@ =~= o0 + tag_below_one(nv, id, f as nat, tag@));
    }
    let ghost o2 = out@;
    tag_below_into(nodes, ids, k - 1, f, tag, out);
    assert(out@ =~= o0 + tag_below_rev(nv, ids@.take(k as int), f as nat, tag@));
}

/// The trimmed text of every inline script of the document (a `<script>`
/// without `src` whose text is not blank), in document order from the root;
/// a script's own children are not searched.
pub fn inline_scripts(nodes: &[Node]) -> (r: Vec<String>)
    ensures
        strings_view(r@) == scripts_in(nodes_view(nodes@), pre_list(nodes_view(nodes@), seq![0usize], nodes_view(nodes@).len(), true)),
{
    let mut start = Vec::new();
    start.push(0usize);
    assert(start@ =~= seq![0usize]);
    let order = preorder(nodes, &start, nodes.len(), true);
    let ghost nv = nodes_view(nodes@);
    let mut out: Vec<String> = Vec::new();
    let mut k: usize = 0;
    while k < order.len()
        invariant
            k <= order@.len(),
            nv == nodes_view(nodes@),
            strings_view(out@) == scripts_in(nv, order@.take(k as int)),
        decreases order@.len() - k,
    {
        let id = order[k];
        let ghost t0 = order@.take(k as int);
        assert(order@.take(k + 1).drop_last() =~= t0);
        let ghost prev = strings_view(out@);
        if id < nodes.len() {
            let node = &nodes[id];
            let is_script = match node.tag_name() {
                Some(t) => str_eq(t, "script"),
                None => false,
            };
            if is_script && node.attr("src").is_none() {
                let text = node.text_content(nodes);
                let trimmed = trim_str(text.as_str());
                if !trimmed.as_str().is_empty() {
                    out.push(trimmed);
                }
            }
        }
        assert(strings_view(out@) =~= scripts_in(nv, order@.take(k + 1)));
        k = k + 1;
    }
    assert(order@.take(k as int) =~= order@);
    out
}

proof fn lemma_release_all_len(d: DocView, ids: Seq<NodeId>)
    ensures
        release_all(d, ids).nodes.len() == d.nodes.len(),
    decreases ids.len(),
{
    if ids.len() > 0 {
        lemma_release_all_len(release_spec(d, ids[0]), ids.drop_first());
    }
}

impl Default for Document {
    fn default() -> (r: Self)
        ensures
            r@.nodes == seq![fresh(0, DataView::Document)],
            r@.url == Seq::<char>::empty(),
            r@.free == Seq::<NodeId>::empty(),
    {
        Document::new()
    }
}

impl Clone for Document {
    fn clone(&self) -> (r: Self)
        ensures
            r@ == self@,
    {
        let nodes = self.nodes.clone();
        assert(nodes_view(nodes@) =~= nodes_view(self.nodes@));
        Document { nodes, url: self.url.clone(), free_list: self.free_list.clone() }
    }
}


proof fn lemma_set_lookup(attrs: Seq<AttrView>, name: Seq<char>, value: Seq<char>, other: Seq<char>)
    ensures
        attr_lookup(set_attr_spec(attrs, name, value), other) == (if other == name {
            Some(value)
        } else {
            attr_lookup(attrs, other)
        }),
    decreases attrs.len(),
{
    let r = set_attr_spec(attrs, name, value);
    if attrs.len() == 0 {
        assert(r =~= seq![AttrView { name, value }]);
        assert(r.drop_first() =~= Seq::<AttrView>::empty());
        assert(attr_lookup(r.drop_first(), other) is None);
    } else if attrs[0].name == name {
        assert(attr_index(attrs, name) == Some(0int));
        assert(r[0].name == name && r[0].value == value);
        assert(r.drop_first() =~= attrs.drop_first());
        assert(attr_lookup(r, other) == (if other == name { Some(value) } else { attr_lookup(attrs.drop_first(), other) }));
    } else {
        let rest = attrs.drop_first();
        lemma_set_lookup(rest, name, value, other);
        lemma_attr_index(rest, name);
        assert(r.drop_first() =~= set_attr_spec(rest, name, value));
        assert(r[0] == attrs[0]);
    }
}

proof fn lemma_remove_lookup(attrs: Seq<AttrView>, name: Seq<char>, other: Seq<char>)
    ensures
        attr_lookup(attrs.filter(named_other(name)), other) == (if other == name {
            None
        } else {
            attr_lookup(attrs, other)
        }),
    decreases attrs.len(),
{
    let p = named_other(name);
    if attrs.len() == 0 {
        assert(attrs.filter(p) =~= Seq::<AttrView>::empty());
    } else {
        lemma_remove_lookup(attrs.drop_first(), name, other);
        assert(attrs =~= seq![attrs[0]] + attrs.drop_first());
        attrs.drop_first().lemma_filter_prepend(attrs[0], p);
        if p(attrs[0]) {
            assert((seq![attrs[0]] + attrs.drop_first().filter(p)).drop_first() =~= attrs.drop_first().filter(p));
        }
    }
}

/// Reading attribute `name` of an element right after setting it to
/// `value` gives `value`; every other attribute reads as before, and no
/// other node changes.
pub proof fn lemma_attribute_read_after_write(d: DocView, id: NodeId, name: Seq<char>, value: Seq<char>)
    requires
        id < d.nodes.len(),
        d.nodes[id as int].data is Element,
    ensures
        attr_of(with_attribute(d, id, name, value).nodes[id as int].data, name) == Some(value),
        forall|other: Seq<char>|
            other != name ==> #[trigger] attr_of(with_attribute(d, id, name, value).nodes[id as int].data, other)
                == attr_of(d.nodes[id as int].data, other),
        with_attribute(d, id, name, value).nodes.len() == d.nodes.len(),
        forall|j: int| 0 <= j < d.nodes.len() && j != id ==> #[trigger] with_attribute(d, id, name, value).nodes[j] == d.nodes[j],
{
    match d.nodes[id as int].data {
        DataView::Element { attrs, .. } => {
            lemma_set_lookup(attrs, name, value, name);
            assert forall|other: Seq<char>| other != name implies #[trigger] attr_of(
                with_attribute(d, id, name, value).nodes[id as int].data,
                other,
            ) == attr_of(d.nodes[id as int].data, other) by {
                lemma_set_lookup(attrs, name, value, other);
            }
        },
        _ => {},
    }
}

/// After removing attribute `name` from an element it reads as absent;
/// every other attribute reads as before, and no other node changes.
pub proof fn lemma_attribute_removed(d: DocView, id: NodeId, name: Seq<char>)
    requires
        id < d.nodes.len(),
        d.nodes[id as int].data is Element,
    ensures
        attr_of(without_attribute(d, id, name).nodes[id as int].data, name) is None,
        forall|other: Seq<char>|
            other != name ==> #[trigger] attr_of(without_attribute(d, id, name).nodes[id as int].data, other)
                == attr_of(d.nodes[id as int].data, other),
        without_attribute(d, id, name).nodes.len() == d.nodes.len(),
        forall|j: int| 0 <= j < d.nodes.len() && j != id ==> #[trigger] without_attribute(d, id, name).nodes[j] == d.nodes[j],
{
    match d.nodes[id as int].data {
        DataView::Element { attrs, .. } => {
            lemma_remove_lookup(attrs, name, name);
            assert forall|other: Seq<char>| other != name implies #[trigger] attr_of(
                without_attribute(d, id, name).nodes[id as int].data,
                other,
            ) == attr_of(d.nodes[id as int].data, other) by {
                lemma_remove_lookup(attrs, name, other);
            }
        },
        _ => {},
    }
}

/// Appending `child` to `parent` makes `parent` the child's parent and the
/// child the parent's last child; the number of slots stays the same.
pub proof fn lemma_append_links(d: DocView, parent: NodeId, child: NodeId)
    requires
        parent < d.nodes.len(),
        child < d.nodes.len(),
    ensures
        append_spec(d, parent, child).nodes.len() == d.nodes.len(),
        append_spec(d, parent, child).nodes[child as int].parent == Some(parent),
        append_spec(d, parent, child).nodes[parent as int].children.last() == child,
        append_spec(d, parent, child).nodes[parent as int].children.drop_last() == d.nodes[parent as int].children,
{
    let a = append_spec(d, parent, child);
    assert(a.nodes[parent as int].children.drop_last() =~= d.nodes[parent as int].children);
}


proof fn lemma_filter_keeps_all(s: Seq<NodeId>, x: NodeId)
    requires
        !s.contains(x),
    ensures
        s.filter(other_than(x)) == s,
    decreases s.len(),
{
    reveal(Seq::filter);
    if s.len() > 0 {
        assert(!s.drop_last().contains(x)) by {
            if s.drop_last().contains(x) {
                let j = choose|j: int| 0 <= j < s.drop_last().len() && s.drop_last()[j] == x;
                assert(s[j] == x);
            }
        }
        lemma_filter_keeps_all(s.drop_last(), x);
        assert(s.drop_last().push(s.last()) =~= s);
    }
}

/// Appending a node that has no parent to a node that does not list it, and
/// then detaching it again, gives back the document as it was.
pub proof fn lemma_append_then_remove(d: DocView, p: NodeId, c: NodeId)
    requires
        p < d.nodes.len(),
        c < d.nodes.len(),
        d.nodes[c as int].parent is None,
        !d.nodes[p as int].children.contains(c),
    ensures
        unlink_spec(append_spec(d, p, c), c) == d,
{
    let a = append_spec(d, p, c);
    let kids = d.nodes[p as int].children;
    assert(a.nodes[c as int].parent == Some(p));
    assert(a.nodes[p as int].children == kids.push(c));
    reveal(Seq::filter);
    assert(kids.push(c).drop_last() =~= kids);
    assert(kids.push(c).filter(other_than(c)) == kids.filter(other_than(c)));
    lemma_filter_keeps_all(kids, c);
    let r = unlink_spec(a, c);
    assert forall|j: int| 0 <= j < d.nodes.len() implies #[trigger] r.nodes[j] == d.nodes[j] by {
        if j == c as int {
            assert(r.nodes[j].children == d.nodes[j].children);
        }
    }
    assert(r.nodes =~= d.nodes);
}

proof fn lemma_no_index_no_name(attrs: Seq<AttrView>, name: Seq<char>)
    requires
        attr_index(attrs, name) is None,
    ensures
        attrs.filter(named_other(name)) == attrs,
    decreases attrs.len(),
{
    reveal(Seq::filter);
    if attrs.len() > 0 {
        assert(attr_index(attrs.drop_first(), name) is None);
        lemma_no_index_no_name(attrs.drop_first(), name);
        assert(forall|j: int| 0 <= j < attrs.len() ==> (#[trigger] attrs[j]).name != name) by {
            lemma_no_index_names(attrs, name);
        }
        lemma_filter_all_pass(attrs, named_other(name));
    }
}

proof fn lemma_no_index_names(attrs: Seq<AttrView>, name: Seq<char>)
    requires
        attr_index(attrs, name) is None,
    ensures
        forall|j: int| 0 <= j < attrs.len() ==> (#[trigger] attrs[j]).name != name,
    decreases attrs.len(),
{
    if attrs.len() > 0 {
        lemma_no_index_names(attrs.drop_first(), name);
        assert forall|j: int| 0 <= j < attrs.len() implies (#[trigger] attrs[j]).name != name by {
            if j > 0 {
                assert(attrs[j] == attrs.drop_first()[j - 1]);
            }
        }
    }
}

proof fn lemma_filter_all_pass(s: Seq<AttrView>, p: spec_fn(AttrView) -> bool)
    requires
        forall|j: int| 0 <= j < s.len() ==> p(#[trigger] s[j]),
    ensures
        s.filter(p) == s,
    decreases s.len(),
{
    reveal(Seq::filter);
    if s.len() > 0 {
        lemma_filter_all_pass(s.drop_last(), p);
        assert(s.drop_last().push(s.last()) =~= s);
    }
}

/// Setting an attribute an element does not have and then removing it
/// gives back the document as it was.
pub proof fn lemma_set_then_remove_attribute(d: DocView, id: NodeId, name: Seq<char>, value: Seq<char>)
    requires
        id < d.nodes.len(),
        d.nodes[id as int].data matches DataView::Element { attrs, .. } && attr_index(attrs, name) is None,
    ensures
        without_attribute(with_attribute(d, id, name, value), id, name) == d,
{
    match d.nodes[id as int].data {
        DataView::Element { tag_name, namespace, attrs } => {
            let pushed = attrs.push(AttrView { name, value });
            reveal(Seq::filter);
            assert(pushed.drop_last() =~= attrs);
            assert(pushed.filter(named_other(name)) == attrs.filter(named_other(name)));
            lemma_no_index_no_name(attrs, name);
            let r = without_attribute(with_attribute(d, id, name, value), id, name);
            assert(r.nodes[id as int].data == d.nodes[id as int].data);
            assert(r.nodes =~= d.nodes);
        },
        _ => {},
    }
}

proof fn lemma_index_of(s: Seq<NodeId>, x: NodeId)
    ensures
        index_of(s, x) matches Some(i) ==> 0 <= i < s.len() && s[i] == x && forall|j: int| 0 <= j < i ==> s[j] != x,
        index_of(s, x) is None ==> forall|j: int| 0 <= j < s.len() ==> s[j] != x,
    decreases s.len(),
{
    if s.len() > 0 {
        lemma_index_of(s.drop_first(), x);
        assert forall|j: int| 1 <= j < s.len() implies s[j] == s.drop_first()[j - 1] by {}
    }
}

proof fn lemma_index_of_unique(s: Seq<NodeId>, i: int)
    requires
        0 <= i < s.len(),
        forall|k1: int, k2: int| 0 <= k1 < k2 < s.len() ==> s[k1] != s[k2],
    ensures
        index_of(s, s[i]) == Some(i),
{
    lemma_index_of(s, s[i]);
    match index_of(s, s[i]) {
        Some(j) => {
            if j < i {
                assert(s[j] != s[i]);
            }
            if j > i {
                assert(s[i] != s[j]);
            }
        },
        None => {
            assert(s[i] != s[i]);
        },
    }
}

/// The tree's links agree: every listed child names the list's owner as its
/// parent, and no list names a child twice.
pub open spec fn links_agree(d: DocView) -> bool {
    &&& doc_wf(d)
    &&& forall|i: int, k: int|
        0 <= i < d.nodes.len() && 0 <= k < d.nodes[i].children.len() ==> d.nodes[#[trigger] d.nodes[i].children[k] as int].parent
            == Some(i as NodeId)
    &&& forall|i: int, k1: int, k2: int|
        0 <= i < d.nodes.len() && 0 <= k1 < k2 < d.nodes[i].children.len() ==> #[trigger] d.nodes[i].children[k1]
            != #[trigger] d.nodes[i].children[k2]
}

/// Where the tree's links agree, `b` follows `a` exactly when `a` comes
/// before `b`; a node without a parent has neither.
pub proof fn lemma_siblings_inverse(d: DocView, a: NodeId, b: NodeId)
    requires
        links_agree(d),
    ensures
        next_sibling_spec(d, a) == Some(b) <==> prev_sibling_spec(d, b) == Some(a),
        a < d.nodes.len() && d.nodes[a as int].parent is None ==> next_sibling_spec(d, a) is None
            && prev_sibling_spec(d, a) is None,
{
    if next_sibling_spec(d, a) == Some(b) {
        let p = d.nodes[a as int].parent->Some_0;
        let sib = d.nodes[p as int].children;
        lemma_index_of(sib, a);
        let i = index_of(sib, a)->Some_0;
        assert(sib[i + 1] == b);
        assert(d.nodes[sib[i + 1] as int].parent == Some(p));
        lemma_index_of_unique(sib, i + 1);
    }
    if prev_sibling_spec(d, b) == Some(a) {
        let p = d.nodes[b as int].parent->Some_0;
        let sib = d.nodes[p as int].children;
        lemma_index_of(sib, b);
        let j = index_of(sib, b)->Some_0;
        assert(sib[j - 1] == a);
        assert(d.nodes[sib[j - 1] as int].parent == Some(p));
        lemma_index_of_unique(sib, j - 1);
    }
}

pub(crate) proof fn lemma_release_all_keeps(d: DocView, ids: Seq<NodeId>)
    requires
        forall|i: int| 0 <= i < d.free.len() ==> #[trigger] d.free[i] < d.nodes.len(),
    ensures
        release_all(d, ids).nodes.len() == d.nodes.len(),
        forall|i: int| 0 <= i < release_all(d, ids).free.len() ==> #[trigger] release_all(d, ids).free[i] < d.nodes.len(),
        release_all(d, ids).free.len() >= d.free.len(),
        forall|i: int| 0 <= i < d.free.len() ==> #[trigger] release_all(d, ids).free[i] == d.free[i],
        forall|j: int|
            0 <= j < d.nodes.len() && !release_all(d, ids).free.contains(j as NodeId) ==> #[trigger] release_all(
                d,
                ids,
            ).nodes[j] == d.nodes[j],
    decreases ids.len(),
{
    if ids.len() > 0 {
        let ord = rel(d.nodes, ids[0], d.nodes.len());
        lemma_rel(d.nodes, ids[0], d.nodes.len());
        let d1 = release_spec(d, ids[0]);
        assert(d1.free == d.free + ord);
        assert forall|i: int| 0 <= i < d1.free.len() implies #[trigger] d1.free[i] < d1.nodes.len() by {
            if i >= d.free.len() {
                assert(d1.free[i] == ord[i - d.free.len()]);
            }
        }
        lemma_release_all_keeps(d1, ids.drop_first());
        let r = release_all(d, ids);
        assert(r == release_all(d1, ids.drop_first()));
        assert forall|i: int| 0 <= i < d.free.len() implies #[trigger] r.free[i] == d.free[i] by {
            assert(r.free[i] == d1.free[i]);
        }
        assert forall|j: int| 0 <= j < d.nodes.len() && !r.free.contains(j as NodeId) implies #[trigger] r.nodes[j]
            == d.nodes[j] by {
            if ord.contains(j as NodeId) {
                let w = choose|w: int| 0 <= w < ord.len() && ord[w] == j as NodeId;
                assert(d1.free[d.free.len() + w] == j as NodeId);
                assert(r.free[d.free.len() + w] == j as NodeId);
            }
            if d1.free.contains(j as NodeId) {
                let w = choose|w: int| 0 <= w < d1.free.len() && d1.free[w] == j as NodeId;
                assert(r.free[w] == j as NodeId);
            }
            assert(r.nodes[j] == d1.nodes[j]);
        }
    }
}

/// After setting the text of a node that is not itself text, its only child
/// is a new text node holding that text, so its text reads back as set.
/// This fails only where clearing the node's children releases the node
/// itself (a node listed below itself), the new text node takes another
/// slot, and the text is not empty: the node is then an empty text node.
pub proof fn lemma_text_after_set(d: DocView, id: NodeId, text: Seq<char>)
    requires
        doc_wf(d),
        d.nodes.len() <= usize::MAX,
        id < d.nodes.len(),
        !(d.nodes[id as int].data is Text),
        release_all(clear_children(d, id), kids_of(d, id)).free.skip(d.free.len() as int).contains(id)
            ==> release_all(clear_children(d, id), kids_of(d, id)).free.last() == id || text.len() == 0,
    ensures
        set_text_spec(d, id, text).nodes[id as int].children.len() == 1,
        ({
            let e = set_text_spec(d, id, text);
            let t = e.nodes[id as int].children[0];
            &&& t < e.nodes.len()
            &&& e.nodes[t as int].data == DataView::Text { content: text }
            &&& e.nodes[t as int].parent == Some(id)
        }),
        doc_text(set_text_spec(d, id, text), id) == text,
{
    let c = clear_children(d, id);
    assert forall|i: int| 0 <= i < c.free.len() implies #[trigger] c.free[i] < c.nodes.len() by {}
    lemma_release_all_keeps(c, kids_of(d, id));
    lemma_released_cleared(c, kids_of(d, id));
    let d2 = release_all(c, kids_of(d, id));
    let fresh_rel = d2.free.skip(d.free.len() as int);
    let (d3, t) = create_spec(d2, DataView::Text { content: text });
    if d2.free.len() > 0 {
        assert(d2.free[d2.free.len() - 1] < d2.nodes.len());
        assert(d2.free[d2.free.len() - 1] == t);
    } else {
        assert(t as int == d2.nodes.len());
    }
    assert(t < d3.nodes.len());
    assert(d3.nodes[t as int] == fresh(t, DataView::Text { content: text }));
    let e = append_spec(d3, id, t);
    assert(e == set_text_spec(d, id, text));
    let nodes = e.nodes;
    if t == id {
        assert(nodes[id as int].children =~= seq![t]);
        assert(nodes[t as int].data == DataView::Text { content: text });
    } else {
        assert(d3.nodes[id as int] == d2.nodes[id as int]);
        assert(d2.nodes[id as int].children.len() == 0);
        assert(e.nodes[id as int].children =~= seq![t]);
        assert(e.nodes[t as int].data == DataView::Text { content: text });
        if fresh_rel.contains(id) {
            assert(d2.free.len() > 0);
            assert(text.len() == 0);
            assert(nodes[id as int].data == DataView::Text { content: Seq::<char>::empty() });
            assert(text =~= Seq::<char>::empty());
        } else {
            assert(d2.nodes[id as int] == c.nodes[id as int]);
            assert(text_of(nodes, nodes[t as int], (nodes.len() - 1) as nat) == text);
            assert(text_list(nodes, seq![t].drop_first(), (nodes.len() - 1) as nat) == Seq::<char>::empty());
            assert(text_list(nodes, seq![t], (nodes.len() - 1) as nat) == text + Seq::<char>::empty());
            assert(text + Seq::<char>::empty() =~= text);
        }
    }
}

/// Releasing subtrees appends the released slots to the free list; each of
/// them becomes an empty text node without links, and every other slot is
/// kept.
pub(crate) proof fn lemma_released_cleared(d: DocView, ids: Seq<NodeId>)
    ensures
        release_all(d, ids).nodes.len() == d.nodes.len(),
        release_all(d, ids).free.len() >= d.free.len(),
        release_all(d, ids).free.take(d.free.len() as int) == d.free,
        forall|x: NodeId|
            x < d.nodes.len() ==> #[trigger] release_all(d, ids).nodes[x as int] == (if release_all(d, ids).free.skip(
                d.free.len() as int,
            ).contains(x) {
                cleared(d.nodes[x as int])
            } else {
                d.nodes[x as int]
            }),
    decreases ids.len(),
{
    if ids.len() > 0 {
        let ord = rel(d.nodes, ids[0], d.nodes.len());
        let d1 = release_spec(d, ids[0]);
        assert(d1.free == d.free + ord);
        lemma_released_cleared(d1, ids.drop_first());
        let e = release_all(d1, ids.drop_first());
        assert(e == release_all(d, ids));
        let new2 = e.free.skip(d1.free.len() as int);
        let all = e.free.skip(d.free.len() as int);
        assert(e.free.take(d1.free.len() as int) == d1.free);
        assert(all =~= ord + new2) by {
            assert forall|j: int| 0 <= j < all.len() implies all[j] == (ord + new2)[j] by {
                if j < ord.len() {
                    assert(e.free.take(d1.free.len() as int)[d.free.len() + j] == e.free[d.free.len() + j]);
                    assert(d1.free[d.free.len() + j] == ord[j]);
                }
            }
        }
        assert(e.free.take(d.free.len() as int) =~= d.free) by {
            assert forall|j: int| 0 <= j < d.free.len() implies e.free.take(d.free.len() as int)[j] == d.free[j] by {
                assert(e.free.take(d1.free.len() as int)[j] == e.free[j]);
                assert(d1.free[j] == d.free[j]);
            }
        }
        assert forall|x: NodeId| x < d.nodes.len() implies #[trigger] e.nodes[x as int] == (if all.contains(x) {
            cleared(d.nodes[x as int])
        } else {
            d.nodes[x as int]
        }) by {
            assert(e.nodes[x as int] == (if new2.contains(x) { cleared(d1.nodes[x as int]) } else { d1.nodes[x as int] }));
            if ord.contains(x) {
                let j = choose|j: int| 0 <= j < ord.len() && ord[j] == x;
                assert(all[j] == x);
            }
            if new2.contains(x) {
                let j = choose|j: int| 0 <= j < new2.len() && new2[j] == x;
                assert(all[ord.len() + j] == x);
            }
            if all.contains(x) {
                let j = choose|j: int| 0 <= j < all.len() && all[j] == x;
                if j < ord.len() {
                    assert(ord.contains(x));
                } else {
                    assert(new2[j - ord.len()] == x);
                    assert(new2.contains(x));
                }
            }
        }
    } else {
        assert(d.free.skip(d.free.len() as int) =~= Seq::<NodeId>::empty());
        assert(d.free.take(d.free.len() as int) =~= d.free);
    }
}

/// A new node takes the most recently released slot when one is free, so the
/// arena grows only when none is; the node holds the given data, with no
/// parent and no children, and the document stays well formed.
pub proof fn lemma_create_reuses_released(d: DocView, data: DataView)
    requires
        doc_wf(d),
        d.nodes.len() <= usize::MAX,
    ensures
        create_spec(d, data).1 < create_spec(d, data).0.nodes.len(),
        create_spec(d, data).0.nodes[create_spec(d, data).1 as int] == fresh(create_spec(d, data).1, data),
        d.free.len() > 0 ==> create_spec(d, data).0.nodes.len() == d.nodes.len() && create_spec(d, data).1
            == d.free.last(),
        d.free.len() == 0 ==> create_spec(d, data).0.nodes.len() == d.nodes.len() + 1,
{
    if d.free.len() > 0 {
        assert(0 < d.free[d.free.len() - 1] < d.nodes.len());
    }
}

} // verus!

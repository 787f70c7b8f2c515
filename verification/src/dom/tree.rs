//! Depth-first, left-to-right traversal of the arena.
//!
//! A walk from a node descends at most `f` levels; every walk in this crate
//! starts with `f` equal to the arena's length, which reaches every node of
//! an acyclic arena.
use vstd::prelude::*;
use crate::dom::node::{Node, NodeId, NodeView, nodes_view, tag_of};
use crate::text::str_eq;

verus! {

/// Whether a walk goes below `n`: a pruned walk does not enter `<script>`.
pub open spec fn expands(n: NodeView, prune: bool) -> bool {
    !(prune && tag_of(n.data) == Some("script"@))
}

/// Pre-order list of the nodes reached from `id`.
pub open spec fn pre(nodes: Seq<NodeView>, id: NodeId, f: nat, prune: bool) -> Seq<NodeId>
    decreases f, 0nat,
{
    if f == 0 || id >= nodes.len() {
        Seq::empty()
    } else if expands(nodes[id as int], prune) {
        seq![id] + pre_list(nodes, nodes[id as int].children, (f - 1) as nat, prune)
    } else {
        seq![id]
    }
}

pub open spec fn pre_list(nodes: Seq<NodeView>, ids: Seq<NodeId>, f: nat, prune: bool) -> Seq<
    NodeId,
>
    decreases f, ids.len() + 1,
{
    if ids.len() == 0 {
        Seq::empty()
    } else {
        pre(nodes, ids[0], f, prune) + pre_list(nodes, ids.drop_first(), f, prune)
    }
}

/// Every node of the arena reachable from the root, in document order.
pub open spec fn doc_order(nodes: Seq<NodeView>) -> Seq<NodeId> {
    pre_list(nodes, seq![0usize], nodes.len(), false)
}

pub open spec fn first_of(s: Seq<NodeId>) -> Option<NodeId> {
    if s.len() > 0 {
        Some(s[0])
    } else {
        None
    }
}

pub open spec fn size(nodes: Seq<NodeView>, id: NodeId, f: nat, prune: bool) -> nat
    decreases f, 0nat,
{
    if f == 0 || id >= nodes.len() {
        1
    } else if expands(nodes[id as int], prune) {
        1 + size_list(nodes, nodes[id as int].children, (f - 1) as nat, prune)
    } else {
        1
    }
}

pub open spec fn size_list(nodes: Seq<NodeView>, ids: Seq<NodeId>, f: nat, prune: bool) -> nat
    decreases f, ids.len() + 1,
{
    if ids.len() == 0 {
        0
    } else {
        size(nodes, ids[0], f, prune) + size_list(nodes, ids.drop_first(), f, prune)
    }
}

pub open spec fn stack_pre(nodes: Seq<NodeView>, s: Seq<(NodeId, usize)>, prune: bool) -> Seq<
    NodeId,
>
    decreases s.len(),
{
    if s.len() == 0 {
        Seq::empty()
    } else {
        pre(nodes, s.last().0, s.last().1 as nat, prune) + stack_pre(nodes, s.drop_last(), prune)
    }
}

pub open spec fn stack_size(nodes: Seq<NodeView>, s: Seq<(NodeId, usize)>, prune: bool) -> nat
    decreases s.len(),
{
    if s.len() == 0 {
        0
    } else {
        size(nodes, s.last().0, s.last().1 as nat, prune) + stack_size(nodes, s.drop_last(), prune)
    }
}

pub open spec fn rev_pairs(ids: Seq<NodeId>, g: usize) -> Seq<(NodeId, usize)> {
    Seq::new(ids.len(), |i: int| (ids[ids.len() - 1 - i], g))
}

proof fn lemma_push_rev(nodes: Seq<NodeView>, s: Seq<(NodeId, usize)>, ids: Seq<NodeId>, g: usize, prune: bool)
    ensures
        stack_pre(nodes, s + rev_pairs(ids, g), prune) == pre_list(nodes, ids, g as nat, prune)
            + stack_pre(nodes, s, prune),
        stack_size(nodes, s + rev_pairs(ids, g), prune) == size_list(nodes, ids, g as nat, prune)
            + stack_size(nodes, s, prune),
    decreases ids.len(),
{
    if ids.len() == 0 {
        assert(s + rev_pairs(ids, g) =~= s);
        assert(pre_list(nodes, ids, g as nat, prune) + stack_pre(nodes, s, prune) =~= stack_pre(nodes, s, prune));
    } else {
        let rest = ids.drop_first();
        lemma_push_rev(nodes, s, rest, g, prune);
        let t = s + rev_pairs(ids, g);
        assert(t.drop_last() =~= s + rev_pairs(rest, g));
        assert(t.last() == (ids[0], g));
        assert(stack_pre(nodes, t, prune) =~= pre_list(nodes, ids, g as nat, prune) + stack_pre(nodes, s, prune));
    }
}

/// Pushes `(ids[k], g)` for `k` from the last index down to the first.
fn push_children_rev(stack: &mut Vec<(NodeId, usize)>, ids: &Vec<NodeId>, g: usize)
    ensures
        final(stack)@ == old(stack)@ + rev_pairs(ids@, g),
{
    let ghost s0 = stack@;
    let mut k = ids.len();
    assert(rev_pairs(ids@.subrange(k as int, ids@.len() as int), g) =~= Seq::empty());
    while k > 0
        invariant
            k <= ids@.len(),
            stack@ == s0 + rev_pairs(ids@.subrange(k as int, ids@.len() as int), g),
        decreases k,
    {
        k = k - 1;
        stack.push((ids[k], g));
        assert(rev_pairs(ids@.subrange(k as int, ids@.len() as int), g) =~= rev_pairs(
            ids@.subrange(k + 1, ids@.len() as int),
            g,
        ).push((ids@[k as int], g)));
    }
    assert(ids@.subrange(0, ids@.len() as int) =~= ids@);
}

pub fn is_script_node(n: &Node) -> (r: bool)
    ensures
        r == (tag_of(n@.data) == Some("script"@)),
{
    match n.tag_name() {
        Some(t) => str_eq(t, "script"),
        None => false,
    }
}

/// The nodes reached from `start`, in pre-order, each walk descending at
/// most `fuel` levels; with `prune` the walk does not enter `<script>`.
pub fn preorder(nodes: &[Node], start: &Vec<NodeId>, fuel: usize, prune: bool) -> (out: Vec<NodeId>)
    ensures
        out@ == pre_list(nodes_view(nodes@), start@, fuel as nat, prune),
{
    let ghost nv = nodes_view(nodes@);
    let mut stack: Vec<(NodeId, usize)> = Vec::new();
    push_children_rev(&mut stack, start, fuel);
    proof {
        lemma_push_rev(nv, Seq::empty(), start@, fuel, prune);
        assert(Seq::<(NodeId, usize)>::empty() + rev_pairs(start@, fuel) =~= rev_pairs(start@, fuel));
        assert(pre_list(nv, start@, fuel as nat, prune) + Seq::<NodeId>::empty() =~= pre_list(nv, start@, fuel as nat, prune));
    }
    let mut out: Vec<NodeId> = Vec::new();
    while stack.len() > 0
        invariant
            nv == nodes_view(nodes@),
            out@ + stack_pre(nv, stack@, prune) == pre_list(nv, start@, fuel as nat, prune),
        decreases stack_size(nv, stack@, prune),
    {
        let ghost before = stack@;
        let (id, f) = stack.pop().unwrap();
        assert(before.drop_last() == stack@);
        assert(before.last() == (id, f));
        if f == 0 || id >= nodes.len() {
            assert(out@ + stack_pre(nv, stack@, prune) =~= out@ + stack_pre(nv, before, prune));
            continue;
        }
        let ghost out0 = out@;
        out.push(id);
        if !(prune && is_script_node(&nodes[id])) {
            let ghost mid = stack@;
            push_children_rev(&mut stack, &nodes[id].children, f - 1);
            proof {
                lemma_push_rev(nv, mid, nv[id as int].children, (f - 1) as usize, prune);
            }
            assert(out@ + stack_pre(nv, stack@, prune) =~= out0 + stack_pre(nv, before, prune));
        } else {
            assert(out@ + stack_pre(nv, stack@, prune) =~= out0 + stack_pre(nv, before, prune));
        }
    }
    assert(out@ + Seq::<NodeId>::empty() =~= out@);
    out
}

} // verus!

//! What edits leave unchanged of a walk from the root: a walk over nodes
//! that an edit did not touch gives the same order, and a walk keeps its
//! order up to the first node that an edit touched. On these rest the laws
//! that a second base injection changes nothing and that a title reads back
//! as set.
use vstd::prelude::*;
use crate::dom::document::{
    append_spec, clear_children, create_spec, doc_text, doc_wf, element_data, find_tag, has_child_tagged, has_tag,
    inject_base_spec, kids_of, lemma_first_found, lemma_found_in_range, lemma_text_after_set, rel, rel_list,
    release_all, release_spec, set_text_spec, set_title_spec, tagged, title_of, DocView,
};
use crate::dom::node::{tag_of, text_list, text_of, DataView, NodeId, NodeView};
use crate::dom::tree::{doc_order, first_of, pre, pre_list};

verus! {

/// A ranking of the arena's slots with every listed child ranked below its
/// parent; an arena that has one has no cycle.
pub open spec fn ranked(nodes: Seq<NodeView>, rank: spec_fn(NodeId) -> nat) -> bool {
    forall|i: int, k: int|
        0 <= i < nodes.len() && 0 <= k < nodes[i].children.len() ==> rank(#[trigger] nodes[i].children[k])
            < rank(i as NodeId)
}

/// Every listed child is a slot of the arena.
pub open spec fn kids_in(nodes: Seq<NodeView>) -> bool {
    forall|i: int, k: int|
        0 <= i < nodes.len() && 0 <= k < nodes[i].children.len() ==> #[trigger] nodes[i].children[k] < nodes.len()
}

/// Walks that start from slots ranked below the fuel.
pub open spec fn starts_ok(nodes: Seq<NodeView>, rank: spec_fn(NodeId) -> nat, ids: Seq<NodeId>, f: nat) -> bool {
    forall|j: int| 0 <= j < ids.len() ==> #[trigger] ids[j] < nodes.len() && rank(ids[j]) < f
}

proof fn lemma_kids_ok(nodes: Seq<NodeView>, rank: spec_fn(NodeId) -> nat, id: NodeId, f: nat)
    requires
        ranked(nodes, rank),
        kids_in(nodes),
        id < nodes.len(),
        rank(id) < f,
    ensures
        f > 0,
        starts_ok(nodes, rank, nodes[id as int].children, (f - 1) as nat),
{
    let kids = nodes[id as int].children;
    assert forall|j: int| 0 <= j < kids.len() implies #[trigger] kids[j] < nodes.len() && rank(kids[j]) < (f - 1) as nat by {
        assert(nodes[id as int].children[j] == kids[j]);
    }
}

/// A walk over slots that the second arena holds unchanged gives the same
/// order in both, with at least as much fuel in the second.
pub proof fn lemma_walk_same(
    nodes: Seq<NodeView>,
    nodes2: Seq<NodeView>,
    rank: spec_fn(NodeId) -> nat,
    ids: Seq<NodeId>,
    f: nat,
    f2: nat,
)
    requires
        ranked(nodes, rank),
        kids_in(nodes),
        starts_ok(nodes, rank, ids, f),
        f <= f2,
        nodes.len() <= nodes2.len(),
        forall|x: NodeId| #[trigger] pre_list(nodes, ids, f, false).contains(x) ==> nodes2[x as int] == nodes[x as int],
    ensures
        pre_list(nodes2, ids, f2, false) == pre_list(nodes, ids, f, false),
    decreases f, ids.len(),
{
    if ids.len() > 0 {
        let id = ids[0];
        let rest = ids.drop_first();
        let w = pre_list(nodes, ids, f, false);
        let a = pre(nodes, id, f, false);
        let r = pre_list(nodes, rest, f, false);
        lemma_kids_ok(nodes, rank, id, f);
        let kids = nodes[id as int].children;
        let c = pre_list(nodes, kids, (f - 1) as nat, false);
        assert(a == seq![id] + c);
        assert(w == a + r);
        assert(w[0] == id);
        assert(w.contains(id));
        assert(nodes2[id as int] == nodes[id as int]);
        assert forall|x: NodeId| #[trigger] c.contains(x) implies nodes2[x as int] == nodes[x as int] by {
            let j = choose|j: int| 0 <= j < c.len() && c[j] == x;
            assert(w[1 + j] == x);
            assert(w.contains(x));
        }
        lemma_walk_same(nodes, nodes2, rank, kids, (f - 1) as nat, (f2 - 1) as nat);
        assert forall|j: int| 0 <= j < rest.len() implies #[trigger] rest[j] < nodes.len() && rank(rest[j]) < f by {
            assert(rest[j] == ids[j + 1]);
        }
        assert forall|x: NodeId| #[trigger] r.contains(x) implies nodes2[x as int] == nodes[x as int] by {
            let j = choose|j: int| 0 <= j < r.len() && r[j] == x;
            assert(w[a.len() + j] == x);
            assert(w.contains(x));
        }
        lemma_walk_same(nodes, nodes2, rank, rest, f, f2);
        assert(nodes2[id as int].children == kids);
        assert(pre(nodes2, id, f2, false) == seq![id] + c);
    }
}

/// A walk keeps its first `k + 1` slots in a second arena that holds the
/// first `k` of them unchanged, with at least as much fuel.
pub proof fn lemma_walk_prefix(
    nodes: Seq<NodeView>,
    nodes2: Seq<NodeView>,
    rank: spec_fn(NodeId) -> nat,
    ids: Seq<NodeId>,
    f: nat,
    f2: nat,
    k: int,
)
    requires
        ranked(nodes, rank),
        kids_in(nodes),
        starts_ok(nodes, rank, ids, f),
        f <= f2,
        nodes.len() <= nodes2.len(),
        0 <= k < pre_list(nodes, ids, f, false).len(),
        forall|j: int|
            0 <= j < k ==> nodes2[#[trigger] pre_list(nodes, ids, f, false)[j] as int]
                == nodes[pre_list(nodes, ids, f, false)[j] as int],
    ensures
        k < pre_list(nodes2, ids, f2, false).len(),
        pre_list(nodes2, ids, f2, false).take(k + 1) == pre_list(nodes, ids, f, false).take(k + 1),
    decreases f, ids.len(),
{
    let id = ids[0];
    let rest = ids.drop_first();
    let w = pre_list(nodes, ids, f, false);
    let a = pre(nodes, id, f, false);
    let r = pre_list(nodes, rest, f, false);
    lemma_kids_ok(nodes, rank, id, f);
    let kids = nodes[id as int].children;
    let c = pre_list(nodes, kids, (f - 1) as nat, false);
    assert(a == seq![id] + c);
    assert(w == a + r);
    let w2 = pre_list(nodes2, ids, f2, false);
    let a2 = pre(nodes2, id, f2, false);
    let r2 = pre_list(nodes2, rest, f2, false);
    assert(w2 == a2 + r2);
    let c2 = pre_list(nodes2, nodes2[id as int].children, (f2 - 1) as nat, false);
    assert(a2 == seq![id] + c2);
    if k < a.len() {
        if k > 0 {
            assert(w[0] == id);
            assert(nodes2[id as int] == nodes[id as int]);
            assert forall|j: int| 0 <= j < k - 1 implies nodes2[#[trigger] c[j] as int] == nodes[c[j] as int] by {
                assert(w[1 + j] == c[j]);
            }
            lemma_walk_prefix(nodes, nodes2, rank, kids, (f - 1) as nat, (f2 - 1) as nat, k - 1);
            assert(w2.take(k + 1) =~= seq![id] + c2.take(k));
            assert(w.take(k + 1) =~= seq![id] + c.take(k));
        } else {
            assert(w2.take(1) =~= seq![id]);
            assert(w.take(1) =~= seq![id]);
        }
    } else {
        let one = seq![id];
        assert(pre_list(nodes, one, f, false) == a + pre_list(nodes, one.drop_first(), f, false));
        assert(one.drop_first() =~= Seq::<NodeId>::empty());
        assert(pre_list(nodes, one, f, false) == a + pre_list(nodes, one.drop_first(), f, false));
        assert(pre_list(nodes, one, f, false) =~= a);
        assert(pre_list(nodes2, one, f2, false) == a2 + pre_list(nodes2, one.drop_first(), f2, false));
        assert(pre_list(nodes2, one, f2, false) =~= a2);
        assert forall|x: NodeId| #[trigger] pre_list(nodes, one, f, false).contains(x) implies nodes2[x as int]
            == nodes[x as int] by {
            let j = choose|j: int| 0 <= j < a.len() && a[j] == x;
            assert(w[j] == x);
        }
        lemma_walk_same(nodes, nodes2, rank, one, f, f2);
        assert(a2 == a);
        assert forall|j: int| 0 <= j < rest.len() implies #[trigger] rest[j] < nodes.len() && rank(rest[j]) < f by {
            assert(rest[j] == ids[j + 1]);
        }
        assert forall|j: int| 0 <= j < k - a.len() implies nodes2[#[trigger] r[j] as int] == nodes[r[j] as int] by {
            assert(w[a.len() + j] == r[j]);
        }
        lemma_walk_prefix(nodes, nodes2, rank, rest, f, f2, k - a.len());
        assert(w2.take(k + 1) =~= a + r2.take(k + 1 - a.len()));
        assert(w.take(k + 1) =~= a + r.take(k + 1 - a.len()));
    }
}

/// Every slot that a walk reaches is a slot of the arena.
pub proof fn lemma_walk_in_range(nodes: Seq<NodeView>, ids: Seq<NodeId>, f: nat)
    ensures
        forall|j: int|
            0 <= j < pre_list(nodes, ids, f, false).len() ==> #[trigger] pre_list(nodes, ids, f, false)[j]
                < nodes.len(),
    decreases f, ids.len(),
{
    if ids.len() > 0 {
        let id = ids[0];
        let w = pre_list(nodes, ids, f, false);
        let a = pre(nodes, id, f, false);
        let r = pre_list(nodes, ids.drop_first(), f, false);
        lemma_walk_in_range(nodes, ids.drop_first(), f);
        if f > 0 && id < nodes.len() {
            let c = pre_list(nodes, nodes[id as int].children, (f - 1) as nat, false);
            lemma_walk_in_range(nodes, nodes[id as int].children, (f - 1) as nat);
            assert(a == seq![id] + c);
            assert forall|j: int| 0 <= j < w.len() implies #[trigger] w[j] < nodes.len() by {
                if j == 0 {
                } else if j < a.len() {
                    assert(w[j] == c[j - 1]);
                } else {
                    assert(w[j] == r[j - a.len()]);
                }
            }
        } else {
            assert(w =~= r);
        }
    }
}

/// The position of the first element of `s` that satisfies `p`.
proof fn lemma_first_index(s: Seq<NodeId>, p: spec_fn(NodeId) -> bool) -> (k: int)
    requires
        s.filter(p).len() > 0,
    ensures
        0 <= k < s.len(),
        p(s[k]),
        s.take(k).filter(p).len() == 0,
        first_of(s.filter(p)) == Some(s[k]),
    decreases s.len(),
{
    reveal(Seq::filter);
    let sub = s.drop_last().filter(p);
    if sub.len() > 0 {
        let k = lemma_first_index(s.drop_last(), p);
        assert(s.drop_last().take(k) =~= s.take(k));
        k
    } else {
        let k = s.len() - 1;
        assert(s.take(k) =~= s.drop_last());
        k
    }
}

/// Filters that agree on every element keep the same elements.
proof fn lemma_filter_agree(s: Seq<NodeId>, p: spec_fn(NodeId) -> bool, q: spec_fn(NodeId) -> bool)
    requires
        forall|j: int| 0 <= j < s.len() ==> p(#[trigger] s[j]) == q(s[j]),
    ensures
        s.filter(p) == s.filter(q),
    decreases s.len(),
{
    reveal(Seq::filter);
    if s.len() > 0 {
        let t = s.drop_last();
        assert forall|j: int| 0 <= j < t.len() implies p(#[trigger] t[j]) == q(t[j]) by {
            assert(t[j] == s[j]);
        }
        lemma_filter_agree(t, p, q);
        assert(p(s[s.len() - 1]) == q(s[s.len() - 1]));
    }
}

/// No released slot is reachable from the root.
pub open spec fn free_detached(d: DocView) -> bool {
    forall|i: int| 0 <= i < d.free.len() ==> !doc_order(d.nodes).contains(#[trigger] d.free[i])
}

/// A ranking under which no path from the root is as long as the number of
/// slots in use (those not on the free list).
pub open spec fn shallow_rank(d: DocView, rank: spec_fn(NodeId) -> nat) -> bool {
    ranked(d.nodes, rank) && rank(0usize) + d.free.len() < d.nodes.len()
}

/// A document shaped as a tree: its links form no cycle, no path from the
/// root is as long as the number of slots in use, and the free list names
/// each released slot once, none of them reachable from the root.
pub open spec fn tree_shaped(d: DocView) -> bool {
    &&& free_detached(d)
    &&& d.free.no_duplicates()
    &&& exists|rank: spec_fn(NodeId) -> nat| #[trigger] shallow_rank(d, rank)
}

/// The first element named `tag` stays first after an edit that leaves every
/// other reachable slot alone and keeps that element's data.
proof fn lemma_first_kept(d: DocView, d2: DocView, tag: Seq<char>, h: NodeId)
    requires
        doc_wf(d),
        tree_shaped(d),
        find_tag(d, tag) == Some(h),
        d.nodes.len() <= d2.nodes.len(),
        h < d.nodes.len(),
        d2.nodes[h as int].data == d.nodes[h as int].data,
        forall|x: NodeId| #[trigger] doc_order(d.nodes).contains(x) && x != h ==> d2.nodes[x as int] == d.nodes[x as int],
    ensures
        find_tag(d2, tag) == Some(h),
{
    let rank = choose|rank: spec_fn(NodeId) -> nat| #[trigger] shallow_rank(d, rank);
    let nodes = d.nodes;
    let nodes2 = d2.nodes;
    let n = nodes.len();
    let w = doc_order(nodes);
    let w2 = doc_order(nodes2);
    let p = |i: NodeId| i < d.nodes.len() && has_tag(d.nodes[i as int], tag);
    let p2 = |i: NodeId| i < d2.nodes.len() && has_tag(d2.nodes[i as int], tag);
    assert(tagged(d, tag) == w.filter(p));
    assert(tagged(d2, tag) == w2.filter(p2));
    let k = lemma_first_index(w, p);
    assert(w[k] == h);
    assert(starts_ok(nodes, rank, seq![0usize], n as nat)) by {
        assert(rank(0usize) < n);
    }
    assert(kids_in(nodes));
    lemma_walk_in_range(nodes, seq![0usize], n as nat);
    assert forall|j: int| 0 <= j < k implies nodes2[#[trigger] w[j] as int] == nodes[w[j] as int] by {
        assert(w.take(k)[j] == w[j]);
        if w[j] == h {
            assert(p(w.take(k)[j]));
            w.take(k).lemma_filter_contains(p, j);
            assert(false);
        }
        assert(w.contains(w[j]));
    }
    lemma_walk_prefix(nodes, nodes2, rank, seq![0usize], n as nat, nodes2.len() as nat, k);
    assert(w2.take(k) =~= w.take(k)) by {
        assert(w2.take(k) =~= w2.take(k + 1).take(k));
        assert(w.take(k) =~= w.take(k + 1).take(k));
    }
    assert(w2[k] == h) by {
        assert(w2.take(k + 1)[k] == w2[k]);
        assert(w.take(k + 1)[k] == w[k]);
    }
    assert forall|j: int| 0 <= j < w.take(k).len() implies p(#[trigger] w.take(k)[j]) == p2(w.take(k)[j]) by {
        assert(w.take(k)[j] == w[j]);
        assert(w[j] < n);
    }
    lemma_filter_agree(w.take(k), p, p2);
    assert(p2(h));
    lemma_first_found(w2, k, p2);
}

/// Injecting a base a second time changes nothing: after the first call the
/// first `<head>` has a `<base>` child, so every later call returns at once.
/// Stated for documents without cycles whose released slots are not
/// reachable from the root.
pub proof fn lemma_inject_base_twice(d: DocView, u1: Seq<char>, u2: Seq<char>)
    requires
        doc_wf(d),
        d.nodes.len() <= usize::MAX,
        tree_shaped(d),
    ensures
        inject_base_spec(inject_base_spec(d, u1), u2) == inject_base_spec(d, u1),
{
    lemma_found_in_range(d, "head"@);
    match find_tag(d, "head"@) {
        None => {},
        Some(h) => {
            if !has_child_tagged(d, h, "base"@) {
                let data = element_data("base"@, seq![crate::dom::node::AttrView { name: "href"@, value: u1 }]);
                let (d1, b) = create_spec(d, data);
                let e = inject_base_spec(d, u1);
                let w = doc_order(d.nodes);
                lemma_walk_in_range(d.nodes, seq![0usize], d.nodes.len() as nat);
                assert forall|x: NodeId| #[trigger] w.contains(x) implies x != b && x < d.nodes.len() by {
                    let j = choose|j: int| 0 <= j < w.len() && w[j] == x;
                    assert(w[j] < d.nodes.len());
                    if d.free.len() > 0 {
                        assert(b == d.free[d.free.len() - 1]);
                        assert(!w.contains(d.free[d.free.len() - 1]));
                    }
                }
                let p = |i: NodeId| i < d.nodes.len() && has_tag(d.nodes[i as int], "head"@);
                assert(tagged(d, "head"@) == w.filter(p));
                assert(w.filter(p)[0] == h);
                assert(w.filter(p).contains(h));
                w.lemma_filter_contains_rev(p, h);
                assert(w.contains(h));
                assert(b != h);
                assert forall|x: NodeId| #[trigger] w.contains(x) && x != h implies e.nodes[x as int] == d.nodes[x as int] by {}
                lemma_first_kept(d, e, "head"@, h);
                assert(e.nodes[h as int].children[0] == b);
                assert(tag_of(e.nodes[b as int].data) == Some("base"@));
                assert(has_child_tagged(e, h, "base"@));
            }
        },
    }
}

/// A walk from slots ranked at most `b` reaches only slots ranked at most `b`.
proof fn lemma_walk_rank(nodes: Seq<NodeView>, rank: spec_fn(NodeId) -> nat, ids: Seq<NodeId>, f: nat, b: nat)
    requires
        ranked(nodes, rank),
        forall|j: int| 0 <= j < ids.len() ==> rank(#[trigger] ids[j]) <= b,
    ensures
        forall|j: int|
            0 <= j < pre_list(nodes, ids, f, false).len() ==> rank(#[trigger] pre_list(nodes, ids, f, false)[j]) <= b,
    decreases f, ids.len(),
{
    if ids.len() > 0 {
        let id = ids[0];
        let rest = ids.drop_first();
        let w = pre_list(nodes, ids, f, false);
        let a = pre(nodes, id, f, false);
        let r = pre_list(nodes, rest, f, false);
        assert forall|j: int| 0 <= j < rest.len() implies rank(#[trigger] rest[j]) <= b by {
            assert(rest[j] == ids[j + 1]);
        }
        lemma_walk_rank(nodes, rank, rest, f, b);
        if f > 0 && id < nodes.len() {
            let kids = nodes[id as int].children;
            assert forall|j: int| 0 <= j < kids.len() implies rank(#[trigger] kids[j]) <= b by {
                assert(nodes[id as int].children[j] == kids[j]);
            }
            lemma_walk_rank(nodes, rank, kids, (f - 1) as nat, b);
            let c = pre_list(nodes, kids, (f - 1) as nat, false);
            assert(a == seq![id] + c);
            assert forall|j: int| 0 <= j < w.len() implies rank(#[trigger] w[j]) <= b by {
                if j == 0 {
                } else if j < a.len() {
                    assert(w[j] == c[j - 1]);
                } else {
                    assert(w[j] == r[j - a.len()]);
                }
            }
        } else {
            assert(w =~= r);
        }
    }
}

/// Whether `x` is an element named `tag` of the arena.
pub open spec fn is_hit(nodes: Seq<NodeView>, tag: Seq<char>, x: NodeId) -> bool {
    x < nodes.len() && has_tag(nodes[x as int], tag)
}

/// A slot that an edit left alone, or turned into a node that is not named
/// `tag` and has no children.
pub open spec fn kept_or_pruned(nodes: Seq<NodeView>, nodes2: Seq<NodeView>, tag: Seq<char>, x: NodeId) -> bool {
    nodes2[x as int] == nodes[x as int] || (!is_hit(nodes2, tag, x) && nodes2[x as int].children.len() == 0)
}

/// A walk that meets no element named `tag` meets none after an edit that
/// left each slot it reached alone or pruned it.
proof fn lemma_walk_no_hit(
    nodes: Seq<NodeView>,
    nodes2: Seq<NodeView>,
    rank: spec_fn(NodeId) -> nat,
    ids: Seq<NodeId>,
    f: nat,
    f2: nat,
    tag: Seq<char>,
)
    requires
        ranked(nodes, rank),
        kids_in(nodes),
        starts_ok(nodes, rank, ids, f),
        f <= f2,
        nodes.len() <= nodes2.len(),
        forall|j: int|
            0 <= j < pre_list(nodes, ids, f, false).len() ==> !is_hit(nodes, tag, #[trigger] pre_list(nodes, ids, f, false)[j]),
        forall|x: NodeId| #[trigger] pre_list(nodes, ids, f, false).contains(x) ==> kept_or_pruned(nodes, nodes2, tag, x),
    ensures
        forall|j: int|
            0 <= j < pre_list(nodes2, ids, f2, false).len() ==> !is_hit(nodes2, tag, #[trigger] pre_list(nodes2, ids, f2, false)[j]),
    decreases f, ids.len(),
{
    if ids.len() > 0 {
        let id = ids[0];
        let rest = ids.drop_first();
        let w = pre_list(nodes, ids, f, false);
        let a = pre(nodes, id, f, false);
        let r = pre_list(nodes, rest, f, false);
        lemma_kids_ok(nodes, rank, id, f);
        let kids = nodes[id as int].children;
        let c = pre_list(nodes, kids, (f - 1) as nat, false);
        assert(a == seq![id] + c);
        assert(w == a + r);
        let w2 = pre_list(nodes2, ids, f2, false);
        let a2 = pre(nodes2, id, f2, false);
        let r2 = pre_list(nodes2, rest, f2, false);
        assert(w2 == a2 + r2);
        let c2 = pre_list(nodes2, nodes2[id as int].children, (f2 - 1) as nat, false);
        assert(a2 == seq![id] + c2);
        assert(w[0] == id);
        assert(w.contains(id));
        assert(!is_hit(nodes, tag, id));
        assert(!is_hit(nodes2, tag, id));
        assert forall|j: int| 0 <= j < rest.len() implies #[trigger] rest[j] < nodes.len() && rank(rest[j]) < f by {
            assert(rest[j] == ids[j + 1]);
        }
        assert forall|j: int| 0 <= j < r.len() implies !is_hit(nodes, tag, #[trigger] r[j]) by {
            assert(w[a.len() + j] == r[j]);
        }
        assert forall|x: NodeId| #[trigger] r.contains(x) implies kept_or_pruned(nodes, nodes2, tag, x) by {
            let j = choose|j: int| 0 <= j < r.len() && r[j] == x;
            assert(w[a.len() + j] == x);
            assert(w.contains(x));
        }
        lemma_walk_no_hit(nodes, nodes2, rank, rest, f, f2, tag);
        if nodes2[id as int] == nodes[id as int] {
            assert forall|j: int| 0 <= j < c.len() implies !is_hit(nodes, tag, #[trigger] c[j]) by {
                assert(w[1 + j] == c[j]);
            }
            assert forall|x: NodeId| #[trigger] c.contains(x) implies kept_or_pruned(nodes, nodes2, tag, x) by {
                let j = choose|j: int| 0 <= j < c.len() && c[j] == x;
                assert(w[1 + j] == x);
                assert(w.contains(x));
            }
            lemma_walk_no_hit(nodes, nodes2, rank, kids, (f - 1) as nat, (f2 - 1) as nat, tag);
        } else {
            assert(nodes2[id as int].children =~= Seq::<NodeId>::empty());
            assert(c2 =~= Seq::<NodeId>::empty());
        }
        assert forall|j: int| 0 <= j < w2.len() implies !is_hit(nodes2, tag, #[trigger] w2[j]) by {
            if j == 0 {
            } else if j < a2.len() {
                assert(w2[j] == c2[j - 1]);
            } else {
                assert(w2[j] == r2[j - a2.len()]);
            }
        }
    }
}

/// A walk whose first element named `tag` is `h`, at `k`, still meets `h`
/// before any other such element after an edit that kept `h` named `tag`
/// and left every other slot it reached alone or pruned it, pruning only
/// slots ranked below `h`. The position of `h` in the new walk is returned.
proof fn lemma_walk_first_pruned(
    nodes: Seq<NodeView>,
    nodes2: Seq<NodeView>,
    rank: spec_fn(NodeId) -> nat,
    ids: Seq<NodeId>,
    f: nat,
    f2: nat,
    tag: Seq<char>,
    h: NodeId,
    k: int,
) -> (k2: int)
    requires
        ranked(nodes, rank),
        kids_in(nodes),
        starts_ok(nodes, rank, ids, f),
        f <= f2,
        nodes.len() <= nodes2.len(),
        0 <= k < pre_list(nodes, ids, f, false).len(),
        pre_list(nodes, ids, f, false)[k] == h,
        forall|j: int| 0 <= j < k ==> !is_hit(nodes, tag, #[trigger] pre_list(nodes, ids, f, false)[j]),
        is_hit(nodes, tag, h),
        is_hit(nodes2, tag, h),
        forall|x: NodeId|
            #[trigger] pre_list(nodes, ids, f, false).contains(x) && x != h ==> nodes2[x as int] == nodes[x as int] || (
            kept_or_pruned(nodes, nodes2, tag, x) && rank(x) < rank(h)),
    ensures
        0 <= k2 < pre_list(nodes2, ids, f2, false).len(),
        pre_list(nodes2, ids, f2, false)[k2] == h,
        forall|j: int| 0 <= j < k2 ==> !is_hit(nodes2, tag, #[trigger] pre_list(nodes2, ids, f2, false)[j]),
    decreases f, ids.len(),
{
    let id = ids[0];
    let rest = ids.drop_first();
    let w = pre_list(nodes, ids, f, false);
    let a = pre(nodes, id, f, false);
    let r = pre_list(nodes, rest, f, false);
    lemma_kids_ok(nodes, rank, id, f);
    let kids = nodes[id as int].children;
    let c = pre_list(nodes, kids, (f - 1) as nat, false);
    assert(a == seq![id] + c);
    assert(w == a + r);
    let w2 = pre_list(nodes2, ids, f2, false);
    let a2 = pre(nodes2, id, f2, false);
    let r2 = pre_list(nodes2, rest, f2, false);
    assert(w2 == a2 + r2);
    let c2 = pre_list(nodes2, nodes2[id as int].children, (f2 - 1) as nat, false);
    assert(a2 == seq![id] + c2);
    assert(w[0] == id);
    assert(w.contains(id));
    if k < a.len() {
        if k == 0 {
            assert(w2[0] == h);
            0
        } else {
            assert(!is_hit(nodes, tag, id));
            assert(id != h);
            // `h` lies below `id`, so `id` ranks at least as high and was not pruned.
            let one = seq![id];
            assert(one.drop_first() =~= Seq::<NodeId>::empty());
            assert(pre_list(nodes, one, f, false) == a + pre_list(nodes, one.drop_first(), f, false));
            assert(pre_list(nodes, one, f, false) =~= a);
            lemma_walk_rank(nodes, rank, one, f, rank(id));
            assert(a[k] == h);
            assert(pre_list(nodes, one, f, false)[k] == h);
            assert(rank(h) <= rank(id));
            assert(nodes2[id as int] == nodes[id as int]);
            assert forall|j: int| 0 <= j < k - 1 implies !is_hit(nodes, tag, #[trigger] c[j]) by {
                assert(w[1 + j] == c[j]);
            }
            assert(c[k - 1] == h);
            assert forall|x: NodeId| #[trigger] c.contains(x) && x != h implies nodes2[x as int] == nodes[x as int] || (
            kept_or_pruned(nodes, nodes2, tag, x) && rank(x) < rank(h)) by {
                let j = choose|j: int| 0 <= j < c.len() && c[j] == x;
                assert(w[1 + j] == x);
                assert(w.contains(x));
            }
            let k3 = lemma_walk_first_pruned(nodes, nodes2, rank, kids, (f - 1) as nat, (f2 - 1) as nat, tag, h, k - 1);
            assert(!is_hit(nodes2, tag, id));
            assert forall|j: int| 0 <= j < k3 + 1 implies !is_hit(nodes2, tag, #[trigger] w2[j]) by {
                if j > 0 {
                    assert(w2[j] == c2[j - 1]);
                }
            }
            assert(w2[k3 + 1] == c2[k3]);
            k3 + 1
        }
    } else {
        let one = seq![id];
        assert(one.drop_first() =~= Seq::<NodeId>::empty());
        assert(pre_list(nodes, one, f, false) == a + pre_list(nodes, one.drop_first(), f, false));
        assert(pre_list(nodes, one, f, false) =~= a);
        assert(pre_list(nodes2, one, f2, false) == a2 + pre_list(nodes2, one.drop_first(), f2, false));
        assert(pre_list(nodes2, one, f2, false) =~= a2);
        assert forall|j: int| 0 <= j < a.len() implies !is_hit(nodes, tag, #[trigger] a[j]) by {
            assert(w[j] == a[j]);
        }
        assert(starts_ok(nodes, rank, one, f));
        assert forall|x: NodeId| #[trigger] pre_list(nodes, one, f, false).contains(x) implies kept_or_pruned(nodes, nodes2, tag, x) by {
            let j = choose|j: int| 0 <= j < a.len() && a[j] == x;
            assert(w[j] == x);
            assert(w.contains(x));
            assert(x != h);
        }
        lemma_walk_no_hit(nodes, nodes2, rank, one, f, f2, tag);
        assert forall|j: int| 0 <= j < rest.len() implies #[trigger] rest[j] < nodes.len() && rank(rest[j]) < f by {
            assert(rest[j] == ids[j + 1]);
        }
        assert forall|j: int| 0 <= j < k - a.len() implies !is_hit(nodes, tag, #[trigger] r[j]) by {
            assert(w[a.len() + j] == r[j]);
        }
        assert(r[k - a.len()] == h);
        assert forall|x: NodeId| #[trigger] r.contains(x) && x != h implies nodes2[x as int] == nodes[x as int] || (
        kept_or_pruned(nodes, nodes2, tag, x) && rank(x) < rank(h)) by {
            let j = choose|j: int| 0 <= j < r.len() && r[j] == x;
            assert(w[a.len() + j] == x);
            assert(w.contains(x));
        }
        let k3 = lemma_walk_first_pruned(nodes, nodes2, rank, rest, f, f2, tag, h, k - a.len());
        assert forall|j: int| 0 <= j < a2.len() + k3 implies !is_hit(nodes2, tag, #[trigger] w2[j]) by {
            if j < a2.len() {
                assert(w2[j] == a2[j]);
            } else {
                assert(w2[j] == r2[j - a2.len()]);
            }
        }
        assert(w2[a2.len() + k3] == r2[k3]);
        a2.len() + k3
    }
}

/// The slots released from `ids` rank at most `b` when `ids` do.
proof fn lemma_rel_list_rank(nodes: Seq<NodeView>, rank: spec_fn(NodeId) -> nat, ids: Seq<NodeId>, f: nat, b: nat)
    requires
        ranked(nodes, rank),
        forall|j: int| 0 <= j < ids.len() ==> rank(#[trigger] ids[j]) <= b,
    ensures
        forall|j: int| 0 <= j < rel_list(nodes, ids, f).len() ==> rank(#[trigger] rel_list(nodes, ids, f)[j]) <= b,
    decreases f, ids.len(),
{
    if ids.len() > 0 {
        let id = ids[0];
        let rest = ids.drop_first();
        let w = rel_list(nodes, ids, f);
        let a = rel(nodes, id, f);
        let r = rel_list(nodes, rest, f);
        assert(w == a + r);
        assert forall|j: int| 0 <= j < rest.len() implies rank(#[trigger] rest[j]) <= b by {
            assert(rest[j] == ids[j + 1]);
        }
        lemma_rel_list_rank(nodes, rank, rest, f, b);
        if f == 0 || id == 0 || id >= nodes.len() {
            assert(w =~= r);
        } else {
            let rk = nodes[id as int].children.reverse();
            assert forall|j: int| 0 <= j < rk.len() implies rank(#[trigger] rk[j]) <= b by {
                assert(rk[j] == nodes[id as int].children[nodes[id as int].children.len() - 1 - j]);
            }
            lemma_rel_list_rank(nodes, rank, rk, (f - 1) as nat, b);
            let c = rel_list(nodes, rk, (f - 1) as nat);
            assert(a == seq![id] + c);
            assert forall|j: int| 0 <= j < w.len() implies rank(#[trigger] w[j]) <= b by {
                if j == 0 {
                } else if j < a.len() {
                    assert(w[j] == c[j - 1]);
                } else {
                    assert(w[j] == r[j - a.len()]);
                }
            }
        }
    }
}

/// Releasing subtrees whose roots rank below `b` keeps the ranking, and
/// every slot it changes becomes a text node without children ranked below
/// `b`, appended to the free list.
proof fn lemma_release_pruned(d: DocView, ids: Seq<NodeId>, rank: spec_fn(NodeId) -> nat, b: nat)
    requires
        ranked(d.nodes, rank),
        forall|j: int| 0 <= j < ids.len() ==> rank(#[trigger] ids[j]) < b,
    ensures
        release_all(d, ids).nodes.len() == d.nodes.len(),
        ranked(release_all(d, ids).nodes, rank),
        forall|x: NodeId|
            x < d.nodes.len() ==> #[trigger] release_all(d, ids).nodes[x as int] == d.nodes[x as int] || (
            release_all(d, ids).nodes[x as int].data is Text && release_all(d, ids).nodes[x as int].children.len() == 0
                && rank(x) < b),
        release_all(d, ids).free.len() >= d.free.len(),
        forall|j: int| 0 <= j < d.free.len() ==> #[trigger] release_all(d, ids).free[j] == d.free[j],
        forall|j: int|
            d.free.len() <= j < release_all(d, ids).free.len() ==> rank(#[trigger] release_all(d, ids).free[j]) < b,
    decreases ids.len(),
{
    if ids.len() > 0 {
        let n = d.nodes.len();
        let ord = rel(d.nodes, ids[0], n);
        let one = seq![ids[0]];
        assert(rel_list(d.nodes, one, n) == ord + rel_list(d.nodes, one.drop_first(), n));
        assert(one.drop_first() =~= Seq::<NodeId>::empty());
        assert(rel_list(d.nodes, one, n) =~= ord);
        lemma_rel_list_rank(d.nodes, rank, one, n, rank(ids[0]));
        assert forall|j: int| 0 <= j < ord.len() implies rank(#[trigger] ord[j]) < b by {
            assert(rel_list(d.nodes, one, n)[j] == ord[j]);
        }
        let d1 = release_spec(d, ids[0]);
        assert(d1.free == d.free + ord);
        assert(d1.nodes.len() == n);
        assert forall|i: int, k: int|
            0 <= i < d1.nodes.len() && 0 <= k < d1.nodes[i].children.len() implies rank(#[trigger] d1.nodes[i].children[k])
                < rank(i as NodeId) by {
            if !ord.contains(i as NodeId) {
                assert(d1.nodes[i] == d.nodes[i]);
            }
        }
        assert(ranked(d1.nodes, rank));
        assert forall|x: NodeId| x < n implies #[trigger] d1.nodes[x as int] == d.nodes[x as int] || (
        d1.nodes[x as int].data is Text && d1.nodes[x as int].children.len() == 0 && rank(x) < b) by {
            if ord.contains(x) {
                let j = choose|j: int| 0 <= j < ord.len() && ord[j] == x;
                assert(rank(ord[j]) < b);
            }
        }
        let rest = ids.drop_first();
        assert forall|j: int| 0 <= j < rest.len() implies rank(#[trigger] rest[j]) < b by {
            assert(rest[j] == ids[j + 1]);
        }
        lemma_release_pruned(d1, rest, rank, b);
        let e = release_all(d1, rest);
        assert(e == release_all(d, ids));
        assert forall|x: NodeId| x < n implies #[trigger] e.nodes[x as int] == d.nodes[x as int] || (
        e.nodes[x as int].data is Text && e.nodes[x as int].children.len() == 0 && rank(x) < b) by {
            assert(e.nodes[x as int] == d1.nodes[x as int] || (e.nodes[x as int].data is Text
                && e.nodes[x as int].children.len() == 0 && rank(x) < b));
            assert(d1.nodes[x as int] == d.nodes[x as int] || (d1.nodes[x as int].data is Text
                && d1.nodes[x as int].children.len() == 0 && rank(x) < b));
        }
        assert forall|j: int| 0 <= j < d.free.len() implies #[trigger] e.free[j] == d.free[j] by {
            assert(e.free[j] == d1.free[j]);
        }
        assert forall|j: int| d.free.len() <= j < e.free.len() implies rank(#[trigger] e.free[j]) < b by {
            if j < d1.free.len() {
                assert(e.free[j] == d1.free[j]);
                assert(d1.free[j] == ord[j - d.free.len()]);
            }
        }
    }
}

/// Setting the title of a document that has a `<title>`: the first
/// `<title>` stays first and holds only the new text.
#[verifier::rlimit(40)]
proof fn lemma_title_replaced(d: DocView, title: Seq<char>)
    requires
        doc_wf(d),
        d.nodes.len() <= usize::MAX,
        tree_shaped(d),
        find_tag(d, "title"@) is Some,
    ensures
        title_of(set_title_spec(d, title)) == title,
{
    let tag = "title"@;
    lemma_found_in_range(d, tag);
    let t = find_tag(d, tag)->0;
    let nodes = d.nodes;
    let n = nodes.len();
    let w = doc_order(nodes);
    let p = |i: NodeId| i < d.nodes.len() && has_tag(d.nodes[i as int], tag);
    assert(tagged(d, tag) == w.filter(p));
    let k = lemma_first_index(w, p);
    assert(w[k] == t);
    assert(w.contains(t));
    let rank = choose|rank: spec_fn(NodeId) -> nat| #[trigger] shallow_rank(d, rank);
    assert(starts_ok(nodes, rank, seq![0usize], n as nat)) by {
        assert(rank(0usize) < n);
    }
    lemma_walk_in_range(nodes, seq![0usize], n as nat);
    assert forall|j: int| 0 <= j < k implies !is_hit(nodes, tag, #[trigger] w[j]) by {
        assert(w.take(k)[j] == w[j]);
        if is_hit(nodes, tag, w[j]) {
            assert(p(w.take(k)[j]));
            w.take(k).lemma_filter_contains(p, j);
            assert(false);
        }
    }
    // Clearing and releasing touch only `t` and slots ranked below it.
    let c = clear_children(d, t);
    assert forall|i: int, q: int|
        0 <= i < c.nodes.len() && 0 <= q < c.nodes[i].children.len() implies rank(#[trigger] c.nodes[i].children[q])
            < rank(i as NodeId) by {
        assert(c.nodes[i].children == d.nodes[i].children);
    }
    assert(ranked(c.nodes, rank));
    let kids = kids_of(d, t);
    assert forall|j: int| 0 <= j < kids.len() implies rank(#[trigger] kids[j]) < rank(t) by {
        assert(d.nodes[t as int].children[j] == kids[j]);
    }
    lemma_release_pruned(c, kids, rank, rank(t));
    let d2 = release_all(c, kids);
    assert(!d2.free.contains(t)) by {
        if d2.free.contains(t) {
            let j = choose|j: int| 0 <= j < d2.free.len() && d2.free[j] == t;
            if j < d.free.len() {
                assert(d2.free[j] == d.free[j]);
                assert(!w.contains(d.free[j]));
            } else {
                assert(rank(d2.free[j]) < rank(t));
            }
        }
    }
    assert(has_tag(nodes[t as int], tag));
    if d2.free.skip(d.free.len() as int).contains(t) {
        let j = choose|j: int| 0 <= j < d2.free.skip(d.free.len() as int).len() && d2.free.skip(d.free.len() as int)[j] == t;
        assert(d2.free[d.free.len() + j] == t);
    }
    lemma_text_after_set(d, t, title);
    let e = set_text_spec(d, t, title);
    assert(e == set_title_spec(d, title));
    let (d3, tx) = create_spec(d2, DataView::Text { content: title });
    assert(e == append_spec(d3, t, tx));
    assert(c.nodes.len() == n);
    assert(d2.nodes.len() == n);
    assert forall|i: int| 0 <= i < c.free.len() implies #[trigger] c.free[i] < c.nodes.len() by {}
    crate::dom::document::lemma_release_all_keeps(c, kids);
    assert(d2.nodes[t as int] == c.nodes[t as int]);
    assert forall|x: NodeId| x < n && x != tx implies #[trigger] d3.nodes[x as int] == d2.nodes[x as int] by {
        if d2.free.len() > 0 {
            assert(d3.nodes == d2.nodes.update(tx as int, crate::dom::document::fresh(tx, DataView::Text { content: title })));
        } else {
            assert(d3.nodes == d2.nodes.push(crate::dom::document::fresh(tx, DataView::Text { content: title })));
        }
    }
    assert(tx != t) by {
        if d2.free.len() > 0 {
            assert(tx == d2.free[d2.free.len() - 1]);
        }
    }
    assert(e.nodes[t as int].data == d.nodes[t as int].data);
    assert(is_hit(e.nodes, tag, t));
    assert forall|x: NodeId| #[trigger] w.contains(x) && x != t implies e.nodes[x as int] == nodes[x as int] || (
    kept_or_pruned(nodes, e.nodes, tag, x) && rank(x) < rank(t)) by {
        let j = choose|j: int| 0 <= j < w.len() && w[j] == x;
        assert(x < n);
        if x == tx {
            assert(d2.free.len() > 0);
            let last = d2.free.len() - 1;
            assert(tx == d2.free[last]);
            if last < d.free.len() {
                assert(d2.free[last] == d.free[last]);
                assert(!w.contains(d.free[last]));
            }
            assert(rank(x) < rank(t));
            assert(e.nodes[x as int].data is Text);
        } else {
            assert(d3.nodes[x as int] == d2.nodes[x as int]);
            assert(e.nodes[x as int] == d2.nodes[x as int]);
            assert(c.nodes[x as int] == nodes[x as int]);
        }
    }
    let k2 = lemma_walk_first_pruned(nodes, e.nodes, rank, seq![0usize], n as nat, e.nodes.len() as nat, tag, t, k);
    let w2 = doc_order(e.nodes);
    let p2 = |i: NodeId| i < e.nodes.len() && has_tag(e.nodes[i as int], tag);
    assert(tagged(e, tag) == w2.filter(p2));
    assert(w2.take(k2).all(|x: NodeId| !p2(x))) by {
        assert forall|j: int| 0 <= j < w2.take(k2).len() implies !p2(#[trigger] w2.take(k2)[j]) by {
            assert(w2.take(k2)[j] == w2[j]);
            assert(!is_hit(e.nodes, tag, w2[j]));
        }
    }
    w2.take(k2).lemma_all_neg_filter_empty(p2);
    lemma_first_found(w2, k2, p2);
    assert(find_tag(e, tag) == Some(t));
}

/// Each starting slot of a walk is reached.
proof fn lemma_walk_has_starts(nodes: Seq<NodeView>, rank: spec_fn(NodeId) -> nat, ids: Seq<NodeId>, f: nat)
    requires
        starts_ok(nodes, rank, ids, f),
    ensures
        forall|k: int| 0 <= k < ids.len() ==> pre_list(nodes, ids, f, false).contains(#[trigger] ids[k]),
    decreases ids.len(),
{
    if ids.len() > 0 {
        let rest = ids.drop_first();
        let w = pre_list(nodes, ids, f, false);
        let a = pre(nodes, ids[0], f, false);
        let r = pre_list(nodes, rest, f, false);
        assert(w == a + r);
        assert forall|j: int| 0 <= j < rest.len() implies #[trigger] rest[j] < nodes.len() && rank(rest[j]) < f by {
            assert(rest[j] == ids[j + 1]);
        }
        lemma_walk_has_starts(nodes, rank, rest, f);
        assert(a[0] == ids[0]);
        assert(w[0] == ids[0]);
        assert forall|k: int| 0 <= k < ids.len() implies w.contains(#[trigger] ids[k]) by {
            if k > 0 {
                assert(ids[k] == rest[k - 1]);
                assert(r.contains(rest[k - 1]));
                let j = choose|j: int| 0 <= j < r.len() && r[j] == rest[k - 1];
                assert(w[a.len() + j] == ids[k]);
            }
        }
    }
}

/// A walk that runs out of no fuel reaches every child of every slot it
/// reaches.
proof fn lemma_walk_closed(nodes: Seq<NodeView>, rank: spec_fn(NodeId) -> nat, ids: Seq<NodeId>, f: nat)
    requires
        ranked(nodes, rank),
        kids_in(nodes),
        starts_ok(nodes, rank, ids, f),
    ensures
        forall|j: int, k: int|
            0 <= j < pre_list(nodes, ids, f, false).len() && 0 <= k
                < nodes[pre_list(nodes, ids, f, false)[j] as int].children.len() ==> pre_list(nodes, ids, f, false).contains(
                #[trigger] nodes[pre_list(nodes, ids, f, false)[j] as int].children[k],
            ),
    decreases f, ids.len(),
{
    if ids.len() > 0 {
        let id = ids[0];
        let rest = ids.drop_first();
        let w = pre_list(nodes, ids, f, false);
        let a = pre(nodes, id, f, false);
        let r = pre_list(nodes, rest, f, false);
        lemma_kids_ok(nodes, rank, id, f);
        let kids = nodes[id as int].children;
        let c = pre_list(nodes, kids, (f - 1) as nat, false);
        assert(a == seq![id] + c);
        assert(w == a + r);
        assert forall|j: int| 0 <= j < rest.len() implies #[trigger] rest[j] < nodes.len() && rank(rest[j]) < f by {
            assert(rest[j] == ids[j + 1]);
        }
        lemma_walk_closed(nodes, rank, rest, f);
        lemma_walk_closed(nodes, rank, kids, (f - 1) as nat);
        lemma_walk_has_starts(nodes, rank, kids, (f - 1) as nat);
        assert forall|j: int, k: int|
            0 <= j < w.len() && 0 <= k < nodes[w[j] as int].children.len() implies w.contains(
            #[trigger] nodes[w[j] as int].children[k],
        ) by {
            let x = nodes[w[j] as int].children[k];
            if j == 0 {
                assert(kids[k] == x);
                assert(c.contains(x));
                let i = choose|i: int| 0 <= i < c.len() && c[i] == x;
                assert(w[1 + i] == x);
            } else if j < a.len() {
                assert(w[j] == c[j - 1]);
                assert(c.contains(x));
                let i = choose|i: int| 0 <= i < c.len() && c[i] == x;
                assert(w[1 + i] == x);
            } else {
                assert(w[j] == r[j - a.len()]);
                assert(r.contains(x));
                let i = choose|i: int| 0 <= i < r.len() && r[i] == x;
                assert(w[a.len() + i] == x);
            }
        }
    }
}

/// A walk from slots of a set closed under children stays in the set.
proof fn lemma_walk_subset(nodes: Seq<NodeView>, ids: Seq<NodeId>, f: nat, s: Set<NodeId>)
    requires
        forall|j: int| 0 <= j < ids.len() ==> s.contains(#[trigger] ids[j]),
        forall|x: NodeId, k: int|
            s.contains(x) && x < nodes.len() && 0 <= k < nodes[x as int].children.len() ==> s.contains(
                #[trigger] nodes[x as int].children[k],
            ),
    ensures
        forall|j: int| 0 <= j < pre_list(nodes, ids, f, false).len() ==> s.contains(#[trigger] pre_list(nodes, ids, f, false)[j]),
    decreases f, ids.len(),
{
    if ids.len() > 0 {
        let id = ids[0];
        let rest = ids.drop_first();
        let w = pre_list(nodes, ids, f, false);
        let a = pre(nodes, id, f, false);
        let r = pre_list(nodes, rest, f, false);
        assert(w == a + r);
        assert forall|j: int| 0 <= j < rest.len() implies s.contains(#[trigger] rest[j]) by {
            assert(rest[j] == ids[j + 1]);
        }
        lemma_walk_subset(nodes, rest, f, s);
        if f > 0 && id < nodes.len() {
            let kids = nodes[id as int].children;
            assert forall|j: int| 0 <= j < kids.len() implies s.contains(#[trigger] kids[j]) by {
                assert(nodes[id as int].children[j] == kids[j]);
            }
            lemma_walk_subset(nodes, kids, (f - 1) as nat, s);
            let c = pre_list(nodes, kids, (f - 1) as nat, false);
            assert(a == seq![id] + c);
            assert forall|j: int| 0 <= j < w.len() implies s.contains(#[trigger] w[j]) by {
                if j == 0 {
                } else if j < a.len() {
                    assert(w[j] == c[j - 1]);
                } else {
                    assert(w[j] == r[j - a.len()]);
                }
            }
        } else {
            assert(w =~= r);
        }
    }
}

/// Setting the title of a document with a `<head>` and no `<title>`: the
/// new `<title>`, last in the first `<head>`, is the only one reached.
#[verifier::rlimit(60)]
proof fn lemma_title_added(d: DocView, title: Seq<char>)
    requires
        doc_wf(d),
        d.nodes.len() + 2 <= usize::MAX,
        tree_shaped(d),
        find_tag(d, "title"@) is None,
        find_tag(d, "head"@) is Some,
    ensures
        title_of(set_title_spec(d, title)) == title,
{
    let tag = "title"@;
    lemma_found_in_range(d, "head"@);
    let h = find_tag(d, "head"@)->0;
    let nodes = d.nodes;
    let n = nodes.len();
    let w = doc_order(nodes);
    let rank = choose|rank: spec_fn(NodeId) -> nat| #[trigger] shallow_rank(d, rank);
    assert(starts_ok(nodes, rank, seq![0usize], n as nat));
    lemma_walk_in_range(nodes, seq![0usize], n as nat);
    lemma_walk_closed(nodes, rank, seq![0usize], n as nat);
    // No `<title>` is reached in `d`.
    let p = |i: NodeId| i < d.nodes.len() && has_tag(d.nodes[i as int], tag);
    assert(tagged(d, tag) == w.filter(p));
    assert forall|j: int| 0 <= j < w.len() implies !is_hit(nodes, tag, #[trigger] w[j]) by {
        if is_hit(nodes, tag, w[j]) {
            w.lemma_filter_contains(p, j);
            assert(w.filter(p).len() > 0);
        }
    }
    // Where `<head>` is reached.
    let ph = |i: NodeId| i < d.nodes.len() && has_tag(d.nodes[i as int], "head"@);
    assert(tagged(d, "head"@) == w.filter(ph));
    let kh = lemma_first_index(w, ph);
    assert(w[kh] == h);
    assert(w.contains(h));
    // The two new slots.
    let (d1, el) = create_spec(d, element_data(tag, Seq::empty()));
    let (d2, tx) = create_spec(d1, DataView::Text { content: title });
    let a1 = append_spec(d2, el, tx);
    let e = append_spec(a1, h, el);
    assert(e == set_title_spec(d, title));
    let fl = d.free.len();
    if fl > 0 {
        assert(el == d.free[fl - 1]);
        assert(!w.contains(d.free[fl - 1]));
    }
    if fl > 1 {
        assert(d1.free == d.free.drop_last());
        assert(tx == d.free[fl - 2]);
        assert(!w.contains(d.free[fl - 2]));
        assert(d.free[fl - 2] != d.free[fl - 1]);
    }
    if w.contains(el) {
        let j = choose|j: int| 0 <= j < w.len() && w[j] == el;
        assert(w[j] < n);
    }
    if w.contains(tx) {
        let j = choose|j: int| 0 <= j < w.len() && w[j] == tx;
        assert(w[j] < n);
    }
    assert(!w.contains(el));
    assert(!w.contains(tx));
    assert(el != tx);
    assert(0 < el && 0 < tx);
    let n2 = e.nodes.len();
    assert(n2 >= n);
    assert(el < n2 && tx < n2);
    assert(h != el && h != tx);
    assert forall|x: NodeId| x < n2 && x != h && x != el && x != tx implies #[trigger] e.nodes[x as int]
        == nodes[x as int] by {}
    assert(e.nodes[h as int].data == nodes[h as int].data);
    assert(e.nodes[h as int].children == nodes[h as int].children.push(el));
    assert(e.nodes[el as int].children =~= seq![tx]);
    assert(e.nodes[el as int].data == element_data(tag, Seq::empty()));
    assert(e.nodes[tx as int].children.len() == 0);
    assert(e.nodes[tx as int].data == DataView::Text { content: title });
    // `<head>` is reached in the new document where it was before.
    assert forall|j: int| 0 <= j < kh implies e.nodes[#[trigger] w[j] as int] == nodes[w[j] as int] by {
        assert(w.take(kh)[j] == w[j]);
        if w[j] == h {
            assert(ph(w.take(kh)[j]));
            w.take(kh).lemma_filter_contains(ph, j);
            assert(false);
        }
        assert(w.contains(w[j]));
    }
    lemma_walk_prefix(nodes, e.nodes, rank, seq![0usize], n as nat, n2 as nat, kh);
    let w2 = doc_order(e.nodes);
    assert(w2[kh] == h) by {
        assert(w2.take(kh + 1)[kh] == w2[kh]);
        assert(w.take(kh + 1)[kh] == w[kh]);
    }
    // A ranking of the new document reaches everything below `<head>`.
    let rank2 = |x: NodeId| if x == el { 1nat } else if x == tx { 0nat } else { rank(x) + 2 };
    assert forall|i: int, k: int|
        0 <= i < e.nodes.len() && 0 <= k < e.nodes[i].children.len() implies rank2(#[trigger] e.nodes[i].children[k])
            < rank2(i as NodeId) by {
        let ch = e.nodes[i].children[k];
        if i == h {
            if k < nodes[h as int].children.len() {
                assert(ch == nodes[h as int].children[k]);
                assert(w.contains(ch));
            }
        } else if i == el as int {
            assert(ch == tx);
        } else if i == tx as int {
        } else {
            assert(e.nodes[i] == nodes[i]);
        }
    }
    assert(ranked(e.nodes, rank2));
    assert(kids_in(e.nodes)) by {
        assert forall|i: int, k: int|
            0 <= i < e.nodes.len() && 0 <= k < e.nodes[i].children.len() implies #[trigger] e.nodes[i].children[k]
                < e.nodes.len() by {
            if i == h {
                if k < nodes[h as int].children.len() {
                    assert(e.nodes[i].children[k] == nodes[h as int].children[k]);
                }
            } else if i != el as int && i != tx as int {
                assert(e.nodes[i] == nodes[i]);
            }
        }
    }
    assert(rank2(0usize) < n2);
    assert(starts_ok(e.nodes, rank2, seq![0usize], n2 as nat));
    lemma_walk_closed(e.nodes, rank2, seq![0usize], n2 as nat);
    assert(w2.contains(h));
    let jh = choose|j: int| 0 <= j < w2.len() && w2[j] == h;
    let kl = nodes[h as int].children.len() as int;
    assert(e.nodes[w2[jh] as int].children[kl] == el);
    assert(w2.contains(el));
    // Everything reached is a slot reached before or one of the new slots.
    let s = Set::new(|x: NodeId| w.contains(x) || x == el || x == tx);
    assert(w == pre(nodes, 0usize, n as nat, false) + pre_list(nodes, seq![0usize].drop_first(), n as nat, false));
    assert(pre(nodes, 0usize, n as nat, false)[0] == 0usize);
    assert(w[0] == 0usize);
    assert forall|x: NodeId, k: int|
        s.contains(x) && x < e.nodes.len() && 0 <= k < e.nodes[x as int].children.len() implies s.contains(
        #[trigger] e.nodes[x as int].children[k],
    ) by {
        if x == el {
            assert(e.nodes[x as int].children[k] == tx);
        } else if x == tx {
        } else {
            let j = choose|j: int| 0 <= j < w.len() && w[j] == x;
            if x == h {
                if k < kl {
                    assert(e.nodes[x as int].children[k] == nodes[w[j] as int].children[k]);
                }
            } else {
                assert(e.nodes[x as int] == nodes[w[j] as int]);
                assert(w.contains(nodes[w[j] as int].children[k]));
            }
        }
    }
    lemma_walk_subset(e.nodes, seq![0usize], n2 as nat, s);
    let p2 = |i: NodeId| i < e.nodes.len() && has_tag(e.nodes[i as int], tag);
    assert(tagged(e, tag) == w2.filter(p2));
    assert forall|j: int| 0 <= j < w2.len() && p2(#[trigger] w2[j]) implies w2[j] == el by {
        assert(s.contains(w2[j]));
        if w2[j] != el && w2[j] != tx {
            let i = choose|i: int| 0 <= i < w.len() && w[i] == w2[j];
            assert(!is_hit(nodes, tag, w[i]));
            assert(w[i] < n);
        }
    }
    let je = choose|j: int| 0 <= j < w2.len() && w2[j] == el;
    assert(p2(w2[je]));
    w2.lemma_filter_contains(p2, je);
    let f0 = w2.filter(p2)[0];
    w2.lemma_filter_pred(p2, 0);
    assert(w2.filter(p2).contains(f0));
    w2.lemma_filter_contains_rev(p2, f0);
    assert(f0 == el);
    assert(find_tag(e, tag) == Some(el));
    let ns = e.nodes;
    assert(text_of(ns, ns[tx as int], (n2 - 1) as nat) == title);
    assert(seq![tx].drop_first() =~= Seq::<NodeId>::empty());
    assert(text_list(ns, seq![tx].drop_first(), (n2 - 1) as nat) == Seq::<char>::empty());
    assert(seq![tx][0] == tx);
    assert(text_list(ns, seq![tx], (n2 - 1) as nat) == title + Seq::<char>::empty());
    assert(title + Seq::<char>::empty() =~= title);
    assert(doc_text(e, el) == title);
}

/// After `set_title`, `get_title` reads the title back, wherever the
/// document has a `<title>` or a `<head>` to put one in: the first
/// `<title>` keeps its place and holds only the new text, or a new
/// `<title>` ends the first `<head>` and is the only one. Stated for
/// documents shaped as a tree (see `tree_shaped`).
pub proof fn lemma_title_after_set(d: DocView, title: Seq<char>)
    requires
        doc_wf(d),
        d.nodes.len() + 2 <= usize::MAX,
        tree_shaped(d),
        find_tag(d, "title"@) is Some || find_tag(d, "head"@) is Some,
    ensures
        title_of(set_title_spec(d, title)) == title,
{
    if find_tag(d, "title"@) is Some {
        lemma_title_replaced(d, title);
    } else {
        lemma_title_added(d, title);
    }
}

} // verus!

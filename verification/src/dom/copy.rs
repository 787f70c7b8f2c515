//! Copies of subtrees across arenas: the structure that `deep_clone_from`
//! builds, and why a copy serializes as its source does.
use vstd::prelude::*;
use crate::dom::document::{
    append_spec, clear_children, clone_all, clone_kids, clone_tree, create_spec, doc_wf, kids_of, lemma_release_all_keeps,
    release_all, DocView,
};
use crate::dom::frame::ranked;
use crate::dom::node::{tag_of, DataView, NodeId, NodeView};
use crate::dom::serializer::{in_raw, ser, ser_list};

verus! {

/// Slot `x` of `dn` holds a copy of `src`'s node `y` down to `k` levels:
/// the same data, and children that copy `y`'s children in order, each
/// linked back to its parent. No slot of the copy is free or in `old`.
pub open spec fn copy_of(dn: DocView, x: NodeId, src: Seq<NodeView>, y: NodeId, k: nat, old: Set<NodeId>) -> bool
    decreases k,
{
    &&& x < dn.nodes.len()
    &&& !dn.free.contains(x)
    &&& !old.contains(x)
    &&& y < src.len()
    &&& dn.nodes[x as int].data == src[y as int].data
    &&& (k > 0 ==> dn.nodes[x as int].children.len() == src[y as int].children.len())
    &&& (k > 0 ==> forall|i: int|
        #![trigger dn.nodes[x as int].children[i]]
        0 <= i < dn.nodes[x as int].children.len() ==> dn.nodes[dn.nodes[x as int].children[i] as int].parent == Some(x)
            && copy_of(dn, dn.nodes[x as int].children[i], src, src[y as int].children[i], (k - 1) as nat, old))
}


/// Every child of the source lists its parent back.
pub open spec fn parents_listed(src: Seq<NodeView>) -> bool {
    forall|i: int, k: int|
        0 <= i < src.len() && 0 <= k < src[i].children.len() ==> #[trigger] src[i].children[k] < src.len()
            && src[src[i].children[k] as int].parent == Some(i as NodeId)
}

/// A copy serializes as its source, down to the levels it copies; a text
/// node at the top also needs the same raw-text setting from its parent.
pub proof fn lemma_ser_copy(dn: DocView, x: NodeId, src: Seq<NodeView>, y: NodeId, k: nat, old: Set<NodeId>)
    requires
        copy_of(dn, x, src, y, k, old),
        parents_listed(src),
        (src[y as int].data is Text) ==> in_raw(dn.nodes, dn.nodes[x as int]) == in_raw(src, src[y as int]),
    ensures
        ser(dn.nodes, x, k) == ser(src, y, k),
    decreases k, 0nat,
{
    reveal_with_fuel(copy_of, 2);
    if k > 0 {
        let xs = dn.nodes[x as int].children;
        let ys = src[y as int].children;
        assert forall|i: int| 0 <= i < ys.len() implies #[trigger] ys[i] < src.len() && src[ys[i] as int].parent == Some(y) by {
            assert(src[y as int].children[i] == ys[i]);
        }
        assert forall|i: int|
            0 <= i < xs.len() implies dn.nodes[#[trigger] xs[i] as int].parent == Some(x) && copy_of(
            dn,
            xs[i],
            src,
            ys[i],
            (k - 1) as nat,
            old,
        ) by {
            assert(dn.nodes[x as int].children[i] == xs[i]);
            assert(src[y as int].children[i] == ys[i]);
        }
        lemma_ser_list_copy(dn, xs, src, ys, x, y, (k - 1) as nat, old);
    }
}

proof fn lemma_ser_list_copy(
    dn: DocView,
    xs: Seq<NodeId>,
    src: Seq<NodeView>,
    ys: Seq<NodeId>,
    p: NodeId,
    q: NodeId,
    k: nat,
    old: Set<NodeId>,
)
    requires
        xs.len() == ys.len(),
        p < dn.nodes.len(),
        q < src.len(),
        tag_of(dn.nodes[p as int].data) == tag_of(src[q as int].data),
        parents_listed(src),
        forall|i: int|
            #![trigger xs[i]]
            0 <= i < xs.len() ==> dn.nodes[xs[i] as int].parent == Some(p) && copy_of(dn, xs[i], src, ys[i], k, old),
        forall|i: int| 0 <= i < ys.len() ==> #[trigger] ys[i] < src.len() && src[ys[i] as int].parent == Some(q),
    ensures
        ser_list(dn.nodes, xs, k) == ser_list(src, ys, k),
    decreases k, xs.len() + 1,
{
    if xs.len() > 0 {
        assert(copy_of(dn, xs[0], src, ys[0], k, old));
        assert(ys[0] < src.len());
        lemma_ser_copy(dn, xs[0], src, ys[0], k, old);
        assert forall|i: int| 0 <= i < xs.drop_first().len() implies dn.nodes[#[trigger] xs.drop_first()[i] as int].parent == Some(p)
            && copy_of(dn, xs.drop_first()[i], src, ys.drop_first()[i], k, old) by {
            assert(xs.drop_first()[i] == xs[i + 1]);
            assert(ys.drop_first()[i] == ys[i + 1]);
            assert(copy_of(dn, xs[i + 1], src, ys[i + 1], k, old));
        }
        assert forall|i: int| 0 <= i < ys.drop_first().len() implies #[trigger] ys.drop_first()[i] < src.len()
            && src[ys.drop_first()[i] as int].parent == Some(q) by {
            assert(ys.drop_first()[i] == ys[i + 1]);
        }
        lemma_ser_list_copy(dn, xs.drop_first(), src, ys.drop_first(), p, q, k, old);
    }
}

/// Slots in use: those of the arena not on the free list.
pub open spec fn in_use(d: DocView) -> Set<NodeId> {
    Set::new(|z: NodeId| z < d.nodes.len() && !d.free.contains(z))
}

/// A copy stays a copy when fewer slots are set aside.
proof fn lemma_copy_mono(dn: DocView, x: NodeId, src: Seq<NodeView>, y: NodeId, k: nat, old: Set<NodeId>, old2: Set<NodeId>)
    requires
        copy_of(dn, x, src, y, k, old2),
        old.subset_of(old2),
    ensures
        copy_of(dn, x, src, y, k, old),
    decreases k,
{
    if k > 0 {
        let xs = dn.nodes[x as int].children;
        assert forall|i: int| #![trigger xs[i]] 0 <= i < xs.len() implies copy_of(dn, xs[i], src, src[y as int].children[i], (k - 1) as nat, old) by {
            assert(dn.nodes[x as int].children[i] == xs[i]);
            lemma_copy_mono(dn, xs[i], src, src[y as int].children[i], (k - 1) as nat, old, old2);
        }
    }
}

/// A copy survives an edit that keeps every slot it may use, except that
/// the slot `e` may change its parent if it had none.
proof fn lemma_copy_frame(
    d1: DocView,
    d2: DocView,
    x: NodeId,
    src: Seq<NodeView>,
    y: NodeId,
    k: nat,
    old: Set<NodeId>,
    e: NodeId,
)
    requires
        copy_of(d1, x, src, y, k, old),
        d2.nodes.len() >= d1.nodes.len(),
        forall|z: NodeId| #[trigger] d2.free.contains(z) ==> d1.free.contains(z),
        forall|z: NodeId|
            z < d1.nodes.len() && !d1.free.contains(z) && !old.contains(z) && z != e ==> #[trigger] d2.nodes[z as int]
                == d1.nodes[z as int],
        e < d1.nodes.len() ==> d2.nodes[e as int] == d1.nodes[e as int] || (d2.nodes[e as int].data == d1.nodes[e as int].data
            && d2.nodes[e as int].children == d1.nodes[e as int].children && d1.nodes[e as int].parent is None),
    ensures
        copy_of(d2, x, src, y, k, old),
    decreases k,
{
    if k > 0 {
        let xs = d1.nodes[x as int].children;
        assert(d2.nodes[x as int].children == xs);
        assert forall|i: int| #![trigger xs[i]] 0 <= i < xs.len() implies d2.nodes[xs[i] as int].parent == Some(x) && copy_of(
            d2,
            xs[i],
            src,
            src[y as int].children[i],
            (k - 1) as nat,
            old,
        ) by {
            assert(d1.nodes[x as int].children[i] == xs[i]);
            assert(d1.nodes[xs[i] as int].parent == Some(x));
            assert(copy_of(d1, xs[i], src, src[y as int].children[i], (k - 1) as nat, old));
            assert(d2.nodes[xs[i] as int] == d1.nodes[xs[i] as int]);
            lemma_copy_frame(d1, d2, xs[i], src, src[y as int].children[i], (k - 1) as nat, old, e);
        }
        assert(d2.nodes[x as int].children == xs);
    }
}

/// Cloning never shrinks the arena and only takes slots off the end of the
/// free list.
proof fn lemma_clone_tree_grows(d: DocView, src: Seq<NodeView>, y: NodeId, depth: int)
    requires
        forall|i: int| 0 <= i < d.free.len() ==> #[trigger] d.free[i] < d.nodes.len(),
    ensures
        clone_tree(d, src, y, depth).1 < clone_tree(d, src, y, depth).0.nodes.len(),
        clone_tree(d, src, y, depth).0.nodes.len() >= d.nodes.len(),
        clone_tree(d, src, y, depth).0.free.len() <= d.free.len(),
        clone_tree(d, src, y, depth).0.free == d.free.take(clone_tree(d, src, y, depth).0.free.len() as int),
    decreases 513 - depth, 0nat,
{
    if !(depth > 512 || y >= src.len()) {
        let (d1, nid) = create_spec(d, src[y as int].data);
        if d.free.len() > 0 {
            assert(d.free[d.free.len() - 1] < d.nodes.len());
        } else {
            assert(nid <= usize::MAX);
        }
        assert(nid < d1.nodes.len());
        assert forall|i: int| 0 <= i < d1.free.len() implies #[trigger] d1.free[i] < d1.nodes.len() by {
            assert(d1.free[i] == d.free[i]);
        }
        lemma_clone_kids_grows(d1, nid, src, src[y as int].children, depth + 1);
        let e = clone_tree(d, src, y, depth).0;
        assert(e.free =~= d.free.take(e.free.len() as int)) by {
            assert(e.free =~= d1.free.take(e.free.len() as int));
            if d.free.len() > 0 {
                assert(d1.free =~= d.free.take(d.free.len() - 1));
            } else {
                assert(d1.free =~= d.free);
            }
        }
    } else {
        let e = clone_tree(d, src, y, depth).0;
        if d.free.len() > 0 {
            assert(d.free[d.free.len() - 1] < d.nodes.len());
            assert(e.free =~= d.free.take(d.free.len() - 1));
        } else {
            assert(clone_tree(d, src, y, depth).1 <= usize::MAX);
            assert(e.free =~= d.free.take(0));
        }
    }
}

proof fn lemma_clone_kids_grows(d: DocView, p: NodeId, src: Seq<NodeView>, kids: Seq<NodeId>, depth: int)
    requires
        forall|i: int| 0 <= i < d.free.len() ==> #[trigger] d.free[i] < d.nodes.len(),
        p < d.nodes.len(),
    ensures
        clone_kids(d, p, src, kids, depth).nodes.len() >= d.nodes.len(),
        clone_kids(d, p, src, kids, depth).free.len() <= d.free.len(),
        clone_kids(d, p, src, kids, depth).free == d.free.take(clone_kids(d, p, src, kids, depth).free.len() as int),
    decreases 513 - depth, kids.len() + 1,
{
    if !(kids.len() == 0 || depth > 513) {
        let (d1, c) = clone_tree(d, src, kids[0], depth);
        lemma_clone_tree_grows(d, src, kids[0], depth);
        let d2 = append_spec(d1, p, c);
        assert forall|i: int| 0 <= i < d1.free.len() implies #[trigger] d1.free[i] < d1.nodes.len() by {
            assert(d1.free[i] == d.free[i]);
        }
        assert(d2.nodes.len() == d1.nodes.len());
        assert(d2.free == d1.free);
        lemma_clone_kids_grows(d2, p, src, kids.drop_first(), depth);
        let e = clone_kids(d, p, src, kids, depth);
        assert(e.free =~= d.free.take(e.free.len() as int)) by {
            assert(e.free =~= d2.free.take(e.free.len() as int));
        }
    } else {
        assert(d.free =~= d.free.take(d.free.len() as int));
    }
}

proof fn lemma_take_no_dup(s: Seq<NodeId>, n: int)
    requires
        s.no_duplicates(),
        0 <= n <= s.len(),
    ensures
        s.take(n).no_duplicates(),
        forall|z: NodeId| #[trigger] s.take(n).contains(z) ==> s.contains(z),
{
    assert forall|z: NodeId| #[trigger] s.take(n).contains(z) implies s.contains(z) by {
        let j = choose|j: int| 0 <= j < n && s.take(n)[j] == z;
        assert(s[j] == z);
    }
}

/// What `clone_tree` builds: a copy of `y` down to the levels that lie
/// above the depth limit, in slots that were free or new, with every slot
/// in use before kept.
proof fn lemma_clone_tree_copy(d: DocView, src: Seq<NodeView>, y: NodeId, depth: int, k: nat)
    requires
        d.free.no_duplicates(),
        forall|i: int| 0 <= i < d.free.len() ==> #[trigger] d.free[i] < d.nodes.len(),
        clone_tree(d, src, y, depth).0.nodes.len() <= usize::MAX,
        parents_listed(src),
        0 <= depth,
    ensures
        forall|z: NodeId|
            z < d.nodes.len() && !d.free.contains(z) ==> #[trigger] clone_tree(d, src, y, depth).0.nodes[z as int]
                == d.nodes[z as int],
        clone_tree(d, src, y, depth).0.nodes[clone_tree(d, src, y, depth).1 as int].parent is None,
        !in_use(d).contains(clone_tree(d, src, y, depth).1),
        0 <= depth && depth + k <= 512 && y < src.len() ==> copy_of(
            clone_tree(d, src, y, depth).0,
            clone_tree(d, src, y, depth).1,
            src,
            y,
            k,
            in_use(d),
        ),
    decreases 513 - depth, 0nat,
{
    lemma_clone_tree_grows(d, src, y, depth);
    let (d1, nid) = create_spec(d, if depth > 512 || y >= src.len() {
        DataView::Text { content: Seq::empty() }
    } else {
        src[y as int].data
    });
    if d.free.len() > 0 {
        assert(d.free[d.free.len() - 1] < d.nodes.len());
        assert(d1.free =~= d.free.take(d.free.len() - 1));
        assert(!d1.free.contains(nid));
    } else {
        assert(d1.free == d.free);
        assert(nid == d.nodes.len());
        if d1.free.contains(nid) {
            let j = choose|j: int| 0 <= j < d1.free.len() && d1.free[j] == nid;
        }
    }
    lemma_take_no_dup(d.free, d1.free.len() as int);
    assert(d1.free.no_duplicates());
    assert forall|z: NodeId| z < d.nodes.len() && !d.free.contains(z) implies #[trigger] d1.nodes[z as int] == d.nodes[z as int] by {
        if d.free.len() > 0 {
            assert(z != d.free[d.free.len() - 1]);
        }
    }
    assert(!in_use(d).contains(nid));
    if !(depth > 512 || y >= src.len()) {
        let kids = src[y as int].children;
        assert forall|i: int| 0 <= i < d1.free.len() implies #[trigger] d1.free[i] < d1.nodes.len() by {
            assert(d1.free[i] == d.free[i]);
        }
        let e = clone_kids(d1, nid, src, kids, depth + 1);
        assert(e == clone_tree(d, src, y, depth).0);
        assert forall|i: int| 0 <= i < kids.len() implies #[trigger] kids[i] < src.len() by {
            assert(src[y as int].children[i] == kids[i]);
        }
        let k1: nat = if k > 0 { (k - 1) as nat } else { 0 };
        lemma_clone_kids_copy(d1, nid, src, kids, depth + 1, k1);
        lemma_clone_kids_grows(d1, nid, src, kids, depth + 1);
        lemma_take_no_dup(d1.free, e.free.len() as int);
        assert forall|z: NodeId| z < d.nodes.len() && !d.free.contains(z) implies #[trigger] e.nodes[z as int] == d.nodes[z as int] by {
            assert(d1.nodes[z as int] == d.nodes[z as int]);
            assert(z != nid);
            if d1.free.contains(z) {
                lemma_take_no_dup(d.free, d1.free.len() as int);
            }
        }
        if 0 <= depth && depth + k <= 512 {
            assert(d1.nodes[nid as int].children.len() == 0);
            assert(in_use(d).subset_of(in_use(d1))) by {
                assert forall|z: NodeId| #[trigger] in_use(d).contains(z) implies in_use(d1).contains(z) by {
                    if d1.free.contains(z) {
                        lemma_take_no_dup(d.free, d1.free.len() as int);
                    }
                }
            }
            if k > 0 {
                let xs = e.nodes[nid as int].children;
                assert forall|i: int| #![trigger xs[i]] 0 <= i < xs.len() implies e.nodes[xs[i] as int].parent == Some(nid)
                    && copy_of(e, xs[i], src, kids[i], (k - 1) as nat, in_use(d)) by {
                    assert(xs[i] == e.nodes[nid as int].children[d1.nodes[nid as int].children.len() + i]);
                    lemma_copy_mono(e, xs[i], src, kids[i], (k - 1) as nat, in_use(d), in_use(d1));
                }
            }
            assert(!e.free.contains(nid));
            assert(copy_of(e, nid, src, y, k, in_use(d)));
        }
    }
}

/// The child of `p` at `j` copies `y` and lists `p` as its parent.
pub open spec fn kid_copied(e: DocView, p: NodeId, j: int, src: Seq<NodeView>, y: NodeId, k: nat, old: Set<NodeId>) -> bool {
    let c = e.nodes[p as int].children[j];
    e.nodes[c as int].parent == Some(p) && copy_of(e, c, src, y, k, old)
}

/// What `clone_kids` builds: the copies of `kids`, in order, appended to
/// `p`'s children and linked back to `p`; every other slot in use before
/// is kept.
proof fn lemma_clone_kids_copy(d: DocView, p: NodeId, src: Seq<NodeView>, kids: Seq<NodeId>, depth: int, k: nat)
    requires
        d.free.no_duplicates(),
        forall|i: int| 0 <= i < d.free.len() ==> #[trigger] d.free[i] < d.nodes.len(),
        clone_kids(d, p, src, kids, depth).nodes.len() <= usize::MAX,
        p < d.nodes.len(),
        !d.free.contains(p),
        1 <= depth <= 513,
        forall|i: int| 0 <= i < kids.len() ==> #[trigger] kids[i] < src.len(),
        parents_listed(src),
    ensures
        forall|z: NodeId|
            z < d.nodes.len() && !d.free.contains(z) && z != p ==> #[trigger] clone_kids(d, p, src, kids, depth).nodes[z as int]
                == d.nodes[z as int],
        clone_kids(d, p, src, kids, depth).nodes[p as int].data == d.nodes[p as int].data,
        clone_kids(d, p, src, kids, depth).nodes[p as int].parent == d.nodes[p as int].parent,
        clone_kids(d, p, src, kids, depth).nodes[p as int].children.len() == d.nodes[p as int].children.len() + kids.len(),
        forall|i: int|
            0 <= i < d.nodes[p as int].children.len() ==> #[trigger] clone_kids(d, p, src, kids, depth).nodes[p as int].children[i]
                == d.nodes[p as int].children[i],
        depth + k <= 512 ==> forall|i: int|
            #![trigger kids[i]]
            0 <= i < kids.len() ==> kid_copied(clone_kids(d, p, src, kids, depth), p, d.nodes[p as int].children.len() + i, src, kids[i], k, in_use(d)),
    decreases 513 - depth, kids.len() + 1,
{
    if kids.len() > 0 {
        let (d1, c) = clone_tree(d, src, kids[0], depth);
        lemma_clone_tree_grows(d, src, kids[0], depth);
        let d2 = append_spec(d1, p, c);
        assert forall|i: int| 0 <= i < d1.free.len() implies #[trigger] d1.free[i] < d1.nodes.len() by {
            assert(d1.free[i] == d.free[i]);
        }
        lemma_take_no_dup(d.free, d1.free.len() as int);
        assert(d2.nodes.len() == d1.nodes.len());
        assert(d2.free == d1.free);
        let rest = kids.drop_first();
        let e = clone_kids(d2, p, src, rest, depth);
        assert(e == clone_kids(d, p, src, kids, depth));
        lemma_clone_kids_grows(d2, p, src, rest, depth);
        lemma_clone_tree_copy(d, src, kids[0], depth, k);
        assert(in_use(d).contains(p));
        assert(c != p);
        assert(!d2.free.contains(p));
        assert forall|i: int| 0 <= i < rest.len() implies #[trigger] rest[i] < src.len() by {
            assert(rest[i] == kids[i + 1]);
        }
        lemma_clone_kids_copy(d2, p, src, rest, depth, k);
        lemma_take_no_dup(d2.free, e.free.len() as int);
        let n0: int = d.nodes[p as int].children.len() as int;
        assert(d1.nodes[p as int] == d.nodes[p as int]);
        assert(d2.nodes[p as int].children == d.nodes[p as int].children.push(c));
        assert forall|z: NodeId| z < d.nodes.len() && !d.free.contains(z) && z != p implies #[trigger] e.nodes[z as int]
            == d.nodes[z as int] by {
            assert(d1.nodes[z as int] == d.nodes[z as int]);
            assert(in_use(d).contains(z));
            assert(z != c);
            assert(d2.nodes[z as int] == d1.nodes[z as int]);
            if d2.free.contains(z) {
                assert(d.free.contains(z));
            }
        }
        assert forall|i: int| 0 <= i < n0 implies #[trigger] e.nodes[p as int].children[i] == d.nodes[p as int].children[i] by {
            assert(e.nodes[p as int].children[i] == d2.nodes[p as int].children[i]);
        }
        if depth + k <= 512 {
            assert(in_use(d).subset_of(in_use(d2))) by {
                assert forall|z: NodeId| #[trigger] in_use(d).contains(z) implies in_use(d2).contains(z) by {
                    if d2.free.contains(z) {
                        assert(d.free.contains(z));
                    }
                }
            }
            // The first copy survives the append and the later clones.
            assert(copy_of(d1, c, src, kids[0], k, in_use(d)));
            lemma_copy_frame(d1, d2, c, src, kids[0], k, in_use(d), c);
            assert(e.nodes[p as int].children[n0] == c);
            assert(in_use(d2).contains(c)) by {
                assert(!d1.free.contains(c)) by {
                    assert(!copy_of(d1, c, src, kids[0], k, in_use(d)) || !d1.free.contains(c));
                }
            }
            assert(e.nodes[c as int] == d2.nodes[c as int]);
            lemma_copy_frame(d2, e, c, src, kids[0], k, in_use(d), c);
            assert forall|i: int| #![trigger kids[i]] 0 <= i < kids.len() implies kid_copied(e, p, d.nodes[p as int].children.len() + i, src, kids[i], k, in_use(d)) by {
                let c2 = e.nodes[p as int].children[d.nodes[p as int].children.len() + i];
                if i > 0 {
                    assert(kids[i] == rest[i - 1]);
                    assert(d2.nodes[p as int].children.len() == n0 + 1);
                    assert(c2 == e.nodes[p as int].children[d2.nodes[p as int].children.len() + (i - 1)]);
                    assert(e.nodes[c2 as int].parent == Some(p) && copy_of(e, c2, src, rest[i - 1], k, in_use(d2)));
                    lemma_copy_mono(e, c2, src, rest[i - 1], k, in_use(d), in_use(d2));
                } else {
                    assert(c2 == c);
                    assert(e.nodes[c as int].parent == Some(p));
                    assert(copy_of(e, c, src, kids[i], k, in_use(d)));
                }
            }
        }
    }
}

/// A copy that reaches below the deepest level of its source copies it to
/// any depth.
proof fn lemma_copy_extend(
    dn: DocView,
    x: NodeId,
    src: Seq<NodeView>,
    y: NodeId,
    k: nat,
    k2: nat,
    old: Set<NodeId>,
    rank: spec_fn(NodeId) -> nat,
)
    requires
        copy_of(dn, x, src, y, k, old),
        ranked(src, rank),
        rank(y) < k <= k2,
    ensures
        copy_of(dn, x, src, y, k2, old),
    decreases k,
{
    let xs = dn.nodes[x as int].children;
    let ys = src[y as int].children;
    assert forall|i: int| #![trigger xs[i]] 0 <= i < xs.len() implies dn.nodes[xs[i] as int].parent == Some(x) && copy_of(
        dn,
        xs[i],
        src,
        ys[i],
        (k2 - 1) as nat,
        old,
    ) by {
        assert(dn.nodes[x as int].children[i] == xs[i]);
        assert(src[y as int].children[i] == ys[i]);
        assert(rank(ys[i]) < rank(y));
        lemma_copy_extend(dn, xs[i], src, ys[i], (k - 1) as nat, (k2 - 1) as nat, old, rank);
    }
}

/// Serializing a node whose subtree is shallower than the fuel gives the
/// same markup with more fuel.
proof fn lemma_ser_fuel(nodes: Seq<NodeView>, rank: spec_fn(NodeId) -> nat, y: NodeId, f: nat, f2: nat)
    requires
        ranked(nodes, rank),
        rank(y) < f <= f2,
    ensures
        ser(nodes, y, f) == ser(nodes, y, f2),
    decreases f, 0nat,
{
    if y < nodes.len() {
        let ys = nodes[y as int].children;
        assert forall|i: int| 0 <= i < ys.len() implies rank(#[trigger] ys[i]) < (f - 1) as nat by {
            assert(nodes[y as int].children[i] == ys[i]);
        }
        lemma_ser_list_fuel(nodes, rank, ys, (f - 1) as nat, (f2 - 1) as nat);
    }
}

proof fn lemma_ser_list_fuel(nodes: Seq<NodeView>, rank: spec_fn(NodeId) -> nat, ys: Seq<NodeId>, f: nat, f2: nat)
    requires
        ranked(nodes, rank),
        f <= f2,
        forall|i: int| 0 <= i < ys.len() ==> rank(#[trigger] ys[i]) < f,
    ensures
        ser_list(nodes, ys, f) == ser_list(nodes, ys, f2),
    decreases f, ys.len() + 1,
{
    if ys.len() > 0 {
        lemma_ser_fuel(nodes, rank, ys[0], f, f2);
        assert forall|i: int| 0 <= i < ys.drop_first().len() implies rank(#[trigger] ys.drop_first()[i]) < f by {
            assert(ys.drop_first()[i] == ys[i + 1]);
        }
        lemma_ser_list_fuel(nodes, rank, ys.drop_first(), f, f2);
    }
}

/// A node copied with `deep_clone_from` serializes as its source: for a
/// source node with at most 511 levels below it (ranked below 512), copied
/// into a document whose free list names each slot once, the copy's markup
/// equals the source's at every depth budget that reaches the source's
/// leaves, so `serialize_node` gives the same text for both wherever each
/// arena has more slots than the copy has levels. A text node is copied
/// without its parent, so one inside raw text (a script or style) is left
/// out.
pub proof fn lemma_clone_serializes_alike(d: DocView, src: DocView, s: NodeId, rank: spec_fn(NodeId) -> nat)
    requires
        doc_wf(d),
        d.free.no_duplicates(),
        clone_tree(d, src.nodes, s, 0).0.nodes.len() <= usize::MAX,
        parents_listed(src.nodes),
        s < src.nodes.len(),
        ranked(src.nodes, rank),
        rank(s) < 512,
        (src.nodes[s as int].data is Text) ==> !in_raw(src.nodes, src.nodes[s as int]),
    ensures
        forall|f: nat|
            rank(s) < f ==> #[trigger] ser(clone_tree(d, src.nodes, s, 0).0.nodes, clone_tree(d, src.nodes, s, 0).1, f)
                == ser(src.nodes, s, f),
        rank(s) < clone_tree(d, src.nodes, s, 0).0.nodes.len() && rank(s) < src.nodes.len() ==> ser(
            clone_tree(d, src.nodes, s, 0).0.nodes,
            clone_tree(d, src.nodes, s, 0).1,
            clone_tree(d, src.nodes, s, 0).0.nodes.len() as nat,
        ) == ser(src.nodes, s, src.nodes.len() as nat),
{
    let (e, x) = clone_tree(d, src.nodes, s, 0);
    let kk: nat = (rank(s) + 1) as nat;
    lemma_clone_tree_copy(d, src.nodes, s, 0, kk);
    assert(copy_of(e, x, src.nodes, s, kk, in_use(d)));
    assert(!in_raw(e.nodes, e.nodes[x as int]));
    assert forall|f: nat| rank(s) < f implies #[trigger] ser(e.nodes, x, f) == ser(src.nodes, s, f) by {
        lemma_copy_extend(e, x, src.nodes, s, kk, f, in_use(d), rank);
        lemma_ser_copy(e, x, src.nodes, s, f, in_use(d));
    }
    if rank(s) < e.nodes.len() && rank(s) < src.nodes.len() {
        assert(ser(e.nodes, x, e.nodes.len() as nat) == ser(src.nodes, s, e.nodes.len() as nat));
        if e.nodes.len() <= src.nodes.len() {
            lemma_ser_fuel(src.nodes, rank, s, e.nodes.len() as nat, src.nodes.len() as nat);
        } else {
            lemma_ser_fuel(src.nodes, rank, s, src.nodes.len() as nat, e.nodes.len() as nat);
        }
    }
}

proof fn lemma_clone_all_grows(d: DocView, p: NodeId, src: Seq<NodeView>, ids: Seq<NodeId>)
    requires
        forall|i: int| 0 <= i < d.free.len() ==> #[trigger] d.free[i] < d.nodes.len(),
        p < d.nodes.len(),
    ensures
        clone_all(d, p, src, ids).nodes.len() >= d.nodes.len(),
        clone_all(d, p, src, ids).free.len() <= d.free.len(),
        clone_all(d, p, src, ids).free == d.free.take(clone_all(d, p, src, ids).free.len() as int),
    decreases ids.len(),
{
    if ids.len() > 0 {
        let (d1, c) = clone_tree(d, src, ids[0], 0);
        lemma_clone_tree_grows(d, src, ids[0], 0);
        let d2 = append_spec(d1, p, c);
        assert forall|i: int| 0 <= i < d1.free.len() implies #[trigger] d1.free[i] < d1.nodes.len() by {
            assert(d1.free[i] == d.free[i]);
        }
        assert(d2.nodes.len() == d1.nodes.len());
        assert(d2.free == d1.free);
        lemma_clone_all_grows(d2, p, src, ids.drop_first());
        let e = clone_all(d, p, src, ids);
        assert(e.free =~= d.free.take(e.free.len() as int)) by {
            assert(e.free =~= d2.free.take(e.free.len() as int));
        }
    } else {
        assert(d.free =~= d.free.take(d.free.len() as int));
    }
}

/// What `clone_all` builds: copies of `ids`, in order, appended to `p`'s
/// children and linked back to `p`; every other slot in use before is kept.
proof fn lemma_clone_all_copy(d: DocView, p: NodeId, src: Seq<NodeView>, ids: Seq<NodeId>, k: nat)
    requires
        d.free.no_duplicates(),
        forall|i: int| 0 <= i < d.free.len() ==> #[trigger] d.free[i] < d.nodes.len(),
        clone_all(d, p, src, ids).nodes.len() <= usize::MAX,
        p < d.nodes.len(),
        !d.free.contains(p),
        k <= 512,
        forall|i: int| 0 <= i < ids.len() ==> #[trigger] ids[i] < src.len(),
        parents_listed(src),
    ensures
        forall|z: NodeId|
            z < d.nodes.len() && !d.free.contains(z) && z != p ==> #[trigger] clone_all(d, p, src, ids).nodes[z as int]
                == d.nodes[z as int],
        clone_all(d, p, src, ids).nodes[p as int].children.len() == d.nodes[p as int].children.len() + ids.len(),
        forall|i: int|
            0 <= i < d.nodes[p as int].children.len() ==> #[trigger] clone_all(d, p, src, ids).nodes[p as int].children[i]
                == d.nodes[p as int].children[i],
        forall|i: int|
            #![trigger ids[i]]
            0 <= i < ids.len() ==> kid_copied(clone_all(d, p, src, ids), p, d.nodes[p as int].children.len() + i, src, ids[i], k, in_use(d)),
    decreases ids.len(),
{
    if ids.len() > 0 {
        let (d1, c) = clone_tree(d, src, ids[0], 0);
        lemma_clone_tree_grows(d, src, ids[0], 0);
        let d2 = append_spec(d1, p, c);
        assert forall|i: int| 0 <= i < d1.free.len() implies #[trigger] d1.free[i] < d1.nodes.len() by {
            assert(d1.free[i] == d.free[i]);
        }
        lemma_take_no_dup(d.free, d1.free.len() as int);
        assert(d2.nodes.len() == d1.nodes.len());
        assert(d2.free == d1.free);
        let rest = ids.drop_first();
        let e = clone_all(d2, p, src, rest);
        assert(e == clone_all(d, p, src, ids));
        lemma_clone_all_grows(d2, p, src, rest);
        lemma_clone_tree_copy(d, src, ids[0], 0, k);
        assert(in_use(d).contains(p));
        assert(c != p);
        assert(!d2.free.contains(p));
        assert forall|i: int| 0 <= i < rest.len() implies #[trigger] rest[i] < src.len() by {
            assert(rest[i] == ids[i + 1]);
        }
        lemma_clone_all_copy(d2, p, src, rest, k);
        lemma_take_no_dup(d2.free, e.free.len() as int);
        let n0: int = d.nodes[p as int].children.len() as int;
        assert(d1.nodes[p as int] == d.nodes[p as int]);
        assert(d2.nodes[p as int].children == d.nodes[p as int].children.push(c));
        assert forall|z: NodeId| z < d.nodes.len() && !d.free.contains(z) && z != p implies #[trigger] e.nodes[z as int]
            == d.nodes[z as int] by {
            assert(d1.nodes[z as int] == d.nodes[z as int]);
            assert(in_use(d).contains(z));
            assert(z != c);
            assert(d2.nodes[z as int] == d1.nodes[z as int]);
            if d2.free.contains(z) {
                assert(d.free.contains(z));
            }
        }
        assert forall|i: int| 0 <= i < n0 implies #[trigger] e.nodes[p as int].children[i] == d.nodes[p as int].children[i] by {
            assert(e.nodes[p as int].children[i] == d2.nodes[p as int].children[i]);
        }
        assert(in_use(d).subset_of(in_use(d2))) by {
            assert forall|z: NodeId| #[trigger] in_use(d).contains(z) implies in_use(d2).contains(z) by {
                if d2.free.contains(z) {
                    assert(d.free.contains(z));
                }
            }
        }
        assert(copy_of(d1, c, src, ids[0], k, in_use(d)));
        lemma_copy_frame(d1, d2, c, src, ids[0], k, in_use(d), c);
        assert(e.nodes[p as int].children[n0] == c);
        assert(in_use(d2).contains(c));
        assert(e.nodes[c as int] == d2.nodes[c as int]);
        lemma_copy_frame(d2, e, c, src, ids[0], k, in_use(d), c);
        assert forall|i: int| #![trigger ids[i]] 0 <= i < ids.len() implies kid_copied(e, p, d.nodes[p as int].children.len() + i, src, ids[i], k, in_use(d)) by {
            let c2 = e.nodes[p as int].children[d.nodes[p as int].children.len() + i];
            if i > 0 {
                assert(ids[i] == rest[i - 1]);
                assert(d2.nodes[p as int].children.len() == n0 + 1);
                assert(c2 == e.nodes[p as int].children[d2.nodes[p as int].children.len() + (i - 1)]);
                assert(e.nodes[c2 as int].parent == Some(p) && copy_of(e, c2, src, rest[i - 1], k, in_use(d2)));
                lemma_copy_mono(e, c2, src, rest[i - 1], k, in_use(d), in_use(d2));
            } else {
                assert(c2 == c);
                assert(e.nodes[c as int].parent == Some(p));
            }
        }
    }
}

/// Copies of element nodes, listed in order, serialize as their sources.
proof fn lemma_ser_roots(dn: DocView, xs: Seq<NodeId>, src: Seq<NodeView>, ys: Seq<NodeId>, f: nat, old: Set<NodeId>)
    requires
        xs.len() == ys.len(),
        parents_listed(src),
        forall|i: int| #![trigger xs[i]] 0 <= i < xs.len() ==> copy_of(dn, xs[i], src, ys[i], f, old) && !(src[ys[i] as int].data is Text),
    ensures
        ser_list(dn.nodes, xs, f) == ser_list(src, ys, f),
    decreases xs.len(),
{
    if xs.len() > 0 {
        assert(copy_of(dn, xs[0], src, ys[0], f, old));
        lemma_ser_copy(dn, xs[0], src, ys[0], f, old);
        assert forall|i: int| #![trigger xs.drop_first()[i]] 0 <= i < xs.drop_first().len() implies copy_of(
            dn,
            xs.drop_first()[i],
            src,
            ys.drop_first()[i],
            f,
            old,
        ) && !(src[ys.drop_first()[i] as int].data is Text) by {
            assert(xs.drop_first()[i] == xs[i + 1]);
            assert(ys.drop_first()[i] == ys[i + 1]);
        }
        lemma_ser_roots(dn, xs.drop_first(), src, ys.drop_first(), f, old);
    }
}

/// After `replace_inner_html`, the node's children serialize as the source
/// elements do, one after the other: each source element has at most 511
/// levels below it (ranked below `b`, at most 512), the node is not among
/// the slots its own clearing releases, and the free list then names each
/// slot once. The markup agrees at every depth budget of at least `b`, so
/// `serialize_children` gives the source elements' markup wherever each
/// arena has at least `b` slots.
pub proof fn lemma_inner_html_serializes_alike(d: DocView, node: NodeId, src: DocView, ids: Seq<NodeId>, rank: spec_fn(NodeId) -> nat, b: nat)
    requires
        doc_wf(d),
        node < d.nodes.len(),
        !release_all(clear_children(d, node), kids_of(d, node)).free.contains(node),
        release_all(clear_children(d, node), kids_of(d, node)).free.no_duplicates(),
        clone_all(release_all(clear_children(d, node), kids_of(d, node)), node, src.nodes, ids).nodes.len() <= usize::MAX,
        parents_listed(src.nodes),
        ranked(src.nodes, rank),
        b <= 512,
        forall|i: int|
            0 <= i < ids.len() ==> #[trigger] ids[i] < src.nodes.len() && rank(ids[i]) < b && !(src.nodes[ids[i] as int].data is Text),
    ensures
        ({
            let e = clone_all(release_all(clear_children(d, node), kids_of(d, node)), node, src.nodes, ids);
            &&& forall|f: nat| b <= f ==> #[trigger] ser_list(e.nodes, e.nodes[node as int].children, f) == ser_list(src.nodes, ids, f)
            &&& b <= e.nodes.len() && b <= src.nodes.len() ==> ser_list(e.nodes, e.nodes[node as int].children, e.nodes.len() as nat)
                == ser_list(src.nodes, ids, src.nodes.len() as nat)
        }),
{
    let c = clear_children(d, node);
    assert forall|i: int| 0 <= i < c.free.len() implies #[trigger] c.free[i] < c.nodes.len() by {}
    lemma_release_all_keeps(c, kids_of(d, node));
    let r = release_all(c, kids_of(d, node));
    assert(r.nodes[node as int] == c.nodes[node as int]);
    assert(r.nodes[node as int].children.len() == 0);
    lemma_clone_all_copy(r, node, src.nodes, ids, b);
    let e = clone_all(r, node, src.nodes, ids);
    let xs = e.nodes[node as int].children;
    assert forall|f: nat| b <= f implies #[trigger] ser_list(e.nodes, xs, f) == ser_list(src.nodes, ids, f) by {
        assert forall|i: int| #![trigger xs[i]] 0 <= i < xs.len() implies copy_of(e, xs[i], src.nodes, ids[i], f, in_use(r))
            && !(src.nodes[ids[i] as int].data is Text) by {
            assert(kid_copied(e, node, r.nodes[node as int].children.len() + i, src.nodes, ids[i], b, in_use(r)));
            assert(xs[i] == e.nodes[node as int].children[r.nodes[node as int].children.len() + i]);
            if b > 0 {
                lemma_copy_extend(e, xs[i], src.nodes, ids[i], b, f, in_use(r), rank);
            }
        }
        lemma_ser_roots(e, xs, src.nodes, ids, f, in_use(r));
    }
    if b <= e.nodes.len() && b <= src.nodes.len() {
        assert(ser_list(e.nodes, xs, e.nodes.len() as nat) == ser_list(src.nodes, ids, e.nodes.len() as nat));
        assert forall|i: int| 0 <= i < ids.len() implies rank(#[trigger] ids[i]) < b by {}
        if e.nodes.len() <= src.nodes.len() {
            lemma_ser_list_fuel(src.nodes, rank, ids, b, e.nodes.len() as nat);
            lemma_ser_list_fuel(src.nodes, rank, ids, b, src.nodes.len() as nat);
        } else {
            lemma_ser_list_fuel(src.nodes, rank, ids, b, src.nodes.len() as nat);
            lemma_ser_list_fuel(src.nodes, rank, ids, b, e.nodes.len() as nat);
        }
    }
}

} // verus!

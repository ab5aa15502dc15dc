//! What holds of reconciliation across calls.
use vstd::prelude::*;
use crate::document::{Document, Mutation};
use crate::vnode::{
    VNode, applied, creations, removals, kid_creations, kid_removals, same_shape, fully_bound,
    contains_ref, reusable, reflects, same_skeleton, skeleton_shown,
};

verus! {

/// Whether two nodes are of the same kind.
pub open spec fn same_kind(a: VNode, b: VNode) -> bool {
    match (a, b) {
        (VNode::VTag(_), VNode::VTag(_)) => true,
        (VNode::VText(_), VNode::VText(_)) => true,
        (VNode::VComp(_), VNode::VComp(_)) => true,
        (VNode::VRef(_), VNode::VRef(_)) => true,
        _ => false,
    }
}

/// Describing the same content is symmetric.
pub proof fn lemma_same_shape_symmetric(a: VNode, b: VNode)
    requires
        same_shape(a, b),
    ensures
        same_shape(b, a),
    decreases a,
{
    if let (VNode::VTag(x), VNode::VTag(y)) = (a, b) {
        assert forall|i: int| 0 <= i < y.children@.len() implies same_shape(
            #[trigger] y.children@[i],
            x.children@[i],
        ) by {
            assert(decreases_to!(a => x));
            assert(decreases_to!(x => x.children));
            vstd::std_specs::vec::axiom_vec_index_decreases(x.children, i);
            assert(same_shape(x.children@[i], y.children@[i]));
            lemma_same_shape_symmetric(x.children@[i], y.children@[i]);
        }
    }
}

/// Two trees that describe the same content as a third describe the same
/// content as each other.
pub proof fn lemma_same_shape_common(x: VNode, y: VNode, z: VNode)
    requires
        same_shape(x, z),
        same_shape(y, z),
    ensures
        same_shape(x, y),
    decreases x,
{
    if let (VNode::VTag(a), VNode::VTag(b), VNode::VTag(c)) = (x, y, z) {
        assert forall|i: int| 0 <= i < a.children@.len() implies same_shape(
            #[trigger] a.children@[i],
            b.children@[i],
        ) by {
            assert(decreases_to!(x => a));
            assert(decreases_to!(a => a.children));
            vstd::std_specs::vec::axiom_vec_index_decreases(a.children, i);
            lemma_same_shape_common(a.children@[i], b.children@[i], c.children@[i]);
        }
    }
}

/// Reconciling a tree against a fully bound previous tree of the same content
/// creates and detaches nothing.
pub proof fn lemma_no_churn(n: VNode, p: VNode)
    requires
        fully_bound(p),
        same_shape(n, p),
        !contains_ref(n),
    ensures
        creations(n, Some(p)) == 0,
        removals(n, Some(p)) == 0,
    decreases n, 0nat,
{
    if let (VNode::VTag(a), VNode::VTag(b)) = (n, p) {
        assert(reusable(n, p));
        assert forall|j: int| 0 <= j < a.children@.len() implies !contains_ref(#[trigger] a.children@[j]) by {
            if contains_ref(a.children@[j]) {
                assert(contains_ref(n));
            }
        }
        lemma_no_churn_list(a.children@, b.children@, 0);
    }
}

/// The list form of `lemma_no_churn`, from position `i` on.
pub proof fn lemma_no_churn_list(kids: Seq<VNode>, olds: Seq<VNode>, i: int)
    requires
        0 <= i,
        kids.len() == olds.len(),
        forall|j: int| 0 <= j < kids.len() ==> fully_bound(#[trigger] olds[j]),
        forall|j: int| 0 <= j < kids.len() ==> same_shape(#[trigger] kids[j], olds[j]),
        forall|j: int| 0 <= j < kids.len() ==> !contains_ref(#[trigger] kids[j]),
    ensures
        kid_creations(kids, olds, i) == 0,
        kid_removals(kids, olds, i) == 0,
    decreases kids, kids.len() - i,
{
    if i < kids.len() {
        lemma_no_churn(kids[i], olds[i]);
        lemma_no_churn_list(kids, olds, i + 1);
    }
}

/// A tree reconciled for the first time, then a tree of the same content
/// reconciled against it: the render target shows the first tree, so the
/// second pass succeeds and leaves the render target and its log as they were
/// (what `apply` promises for a shown previous tree of the same content), and
/// creates and detaches no live node.
pub proof fn lemma_steady_state(
    first: VNode,
    bound: VNode,
    parent: usize,
    d0: Document,
    d1: Document,
    again: VNode,
)
    requires
        applied(first, bound, None, parent, d0, d1),
        same_shape(again, first),
        !contains_ref(again),
    ensures
        same_shape(again, bound),
        reflects(d1, bound),
        d1.children_of(parent).contains(bound.bound()->0),
        creations(again, Some(bound)) == 0,
        removals(again, Some(bound)) == 0,
{
    lemma_same_shape_common(again, bound, first);
    lemma_no_churn(again, bound);
}

/// A node reconciled against a bound previous node of its kind (an element
/// with its tag) keeps that live node. A text run is updated in place and a
/// component keeps its mount point: no live node is created or detached, the
/// parent's children stay as they were, and no other live node changes.
pub proof fn lemma_same_kind_keeps_node(
    n0: VNode,
    n1: VNode,
    prev: VNode,
    parent: usize,
    d0: Document,
    d1: Document,
)
    requires
        applied(n0, n1, Some(prev), parent, d0, d1),
        reusable(n0, prev),
        parent < d0.nodes@.len(),
    ensures
        n1.bound() == prev.bound(),
        !(n0 is VTag) ==> {
            &&& d1.nodes@.len() == d0.nodes@.len()
            &&& removals(n0, Some(prev)) == 0
            &&& reflects(d1, n1)
            &&& d1.children_of(parent) == d0.children_of(parent)
            &&& forall|j: int| 0 <= j < d0.nodes@.len() && j != n1.bound()->0 ==> d1.nodes@[j] == d0.nodes@[j]
        },
{
}

/// A node reconciled against a bound previous node of another kind: the old
/// live node is detached first, and the new one takes its place among the
/// parent's children.
pub proof fn lemma_kind_change_replaces(
    n0: VNode,
    n1: VNode,
    prev: VNode,
    parent: usize,
    d0: Document,
    d1: Document,
)
    requires
        applied(n0, n1, Some(prev), parent, d0, d1),
        !same_kind(n0, prev),
        prev.bound() is Some,
    ensures
        d1.log@[d0.log@.len() as int] == (Mutation::Remove { parent, child: prev.bound()->0 }),
        d0.nodes@.len() <= n1.bound()->0,
        exists|i: int|
            0 <= i < d0.children_of(parent).len() && d0.children_of(parent)[i] == prev.bound()->0
                && d1.children_of(parent) == d0.children_of(parent).update(i, n1.bound()->0),
{
}

/// A shown tree has its structure shown.
pub proof fn lemma_reflects_skeleton(d: Document, n: VNode)
    requires
        reflects(d, n),
    ensures
        skeleton_shown(d, n),
    decreases n,
{
    if let VNode::VTag(t) = n {
        assert forall|i: int| 0 <= i < t.children@.len() implies skeleton_shown(d, #[trigger] t.children@[i]) by {
            assert(decreases_to!(n => t));
            assert(decreases_to!(t => t.children));
            vstd::std_specs::vec::axiom_vec_index_decreases(t.children, i);
            lemma_reflects_skeleton(d, t.children@[i]);
        }
    }
}

/// A tree of the structure of one that has the content of a third has the
/// structure of the third.
pub proof fn lemma_skeleton_through_shape(x: VNode, y: VNode, z: VNode)
    requires
        same_skeleton(x, z),
        same_shape(y, z),
    ensures
        same_skeleton(x, y),
    decreases x,
{
    if let (VNode::VTag(a), VNode::VTag(b), VNode::VTag(c)) = (x, y, z) {
        assert forall|i: int| 0 <= i < a.children@.len() implies same_skeleton(
            #[trigger] a.children@[i],
            b.children@[i],
        ) by {
            assert(decreases_to!(x => a));
            assert(decreases_to!(a => a.children));
            vstd::std_specs::vec::axiom_vec_index_decreases(a.children, i);
            assert(same_skeleton(a.children@[i], c.children@[i]));
            assert(same_shape(b.children@[i], c.children@[i]));
            lemma_skeleton_through_shape(a.children@[i], b.children@[i], c.children@[i]);
        }
    }
}

/// A tree reconciled for the first time, then a tree that differs from it in
/// the text of its text runs alone reconciled against it: the render target
/// shows the structure of the first tree, so the second pass succeeds, keeps
/// every live node (each new node binds the live node of the old node at its
/// position) and changes the render target by text updates alone (what
/// `apply` promises for such a previous tree).
pub proof fn lemma_text_changes_only(
    first: VNode,
    bound: VNode,
    parent: usize,
    d0: Document,
    d1: Document,
    again: VNode,
)
    requires
        applied(first, bound, None, parent, d0, d1),
        same_skeleton(again, first),
    ensures
        same_skeleton(again, bound),
        skeleton_shown(d1, bound),
        d1.children_of(parent).contains(bound.bound()->0),
{
    lemma_skeleton_through_shape(again, bound, first);
    lemma_reflects_skeleton(d1, bound);
}

} // verus!

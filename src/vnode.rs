//! Virtual nodes and their reconciliation against a live render target.
use vstd::prelude::*;
use crate::document::{Document, NodeData, Mutation, DetachError, removal_count, lemma_removal_count_push};

verus! {

/// A virtual element: a tag name and ordered children.
pub struct VTag {
    pub tag: String,
    pub children: Vec<VNode>,
    /// The live element this tag is bound to, once reconciled.
    pub reference: Option<usize>,
}

/// A virtual text run.
pub struct VText {
    pub text: String,
    /// The live text node this run is bound to, once reconciled.
    pub reference: Option<usize>,
}

/// A mounted nested component.
pub struct VComp {
    /// The live mount point of the component, once reconciled.
    pub reference: Option<usize>,
}

/// A node of the virtual tree.
pub enum VNode {
    /// A bind between `VTag` and a live element.
    VTag(VTag),
    /// A bind between `VText` and a live text node.
    VText(VText),
    /// A bind between `VComp` and the live mount point of a component.
    VComp(VComp),
    /// A holder for any live node, owned elsewhere.
    VRef(usize),
}

/// Why a reconciliation stopped.
#[derive(Debug, Clone, Copy, PartialEq, Eq, Structural)]
pub enum ApplyError {
    /// A previous binding was not found under the parent it was said to be under.
    Detached,
}

impl VNode {
    /// The live node this virtual node is bound to.
    pub open spec fn bound(self) -> Option<usize> {
        match self {
            VNode::VTag(t) => t.reference,
            VNode::VText(t) => t.reference,
            VNode::VComp(c) => c.reference,
            VNode::VRef(id) => Some(id),
        }
    }
}

/// Whether the tree holds a `VRef` anywhere.
pub open spec fn contains_ref(n: VNode) -> bool
    decreases n,
{
    match n {
        VNode::VTag(t) => exists|i: int| 0 <= i < t.children@.len() && contains_ref(#[trigger] t.children@[i]),
        VNode::VRef(_) => true,
        _ => false,
    }
}

/// Whether every node of the tree is bound to a live node.
pub open spec fn fully_bound(n: VNode) -> bool
    decreases n,
{
    &&& n.bound() is Some
    &&& match n {
        VNode::VTag(t) => forall|i: int| 0 <= i < t.children@.len() ==> fully_bound(#[trigger] t.children@[i]),
        _ => true,
    }
}

/// Whether two trees describe the same content, bindings aside.
pub open spec fn same_shape(a: VNode, b: VNode) -> bool
    decreases a,
{
    match (a, b) {
        (VNode::VTag(x), VNode::VTag(y)) => {
            &&& x.tag@ == y.tag@
            &&& x.children@.len() == y.children@.len()
            &&& forall|i: int| 0 <= i < x.children@.len() ==> same_shape(#[trigger] x.children@[i], y.children@[i])
        },
        (VNode::VText(x), VNode::VText(y)) => x.text@ == y.text@,
        (VNode::VComp(_), VNode::VComp(_)) => true,
        (VNode::VRef(x), VNode::VRef(y)) => x == y,
        _ => false,
    }
}

/// What `==` decides: elements and texts compare by content, components and
/// references are never equal.
pub open spec fn content_eq(a: VNode, b: VNode) -> bool
    decreases a,
{
    match (a, b) {
        (VNode::VTag(x), VNode::VTag(y)) => {
            &&& x.tag@ == y.tag@
            &&& x.children@.len() == y.children@.len()
            &&& forall|i: int| 0 <= i < x.children@.len() ==> content_eq(#[trigger] x.children@[i], y.children@[i])
        },
        (VNode::VText(x), VNode::VText(y)) => x.text@ == y.text@,
        _ => false,
    }
}

/// Whether a live node's data is what the virtual node describes.
pub open spec fn data_matches(d: NodeData, n: VNode) -> bool {
    match (n, d) {
        (VNode::VTag(t), NodeData::Element(s)) => s@ == t.tag@,
        (VNode::VText(t), NodeData::Text(s)) => s@ == t.text@,
        (VNode::VComp(_), NodeData::Component) => true,
        _ => false,
    }
}

/// The handles that a list of bound nodes is bound to.
pub open spec fn handles(kids: Seq<VNode>) -> Seq<usize> {
    kids.map_values(|k: VNode| k.bound()->0)
}

/// Whether `n` may keep the live node of `prev`: the same kind (and, for
/// elements, the same tag), with `prev` bound.
pub open spec fn reusable(n: VNode, prev: VNode) -> bool {
    &&& prev.bound() is Some
    &&& match (n, prev) {
        (VNode::VTag(a), VNode::VTag(b)) => a.tag@ == b.tag@,
        (VNode::VText(_), VNode::VText(_)) => true,
        (VNode::VComp(_), VNode::VComp(_)) => true,
        _ => false,
    }
}

/// The number of live nodes that mounting `n` afresh creates.
pub open spec fn fresh_count(n: VNode) -> nat
    decreases n, 0nat,
{
    match n {
        VNode::VTag(t) => 1 + fresh_list(t.children@, 0),
        VNode::VText(_) => 1,
        VNode::VComp(_) => 1,
        VNode::VRef(_) => 0,
    }
}

/// The number of live nodes that mounting `kids[i..]` afresh creates.
pub open spec fn fresh_list(kids: Seq<VNode>, i: int) -> nat
    decreases kids, kids.len() - i,
{
    if 0 <= i < kids.len() {
        fresh_count(kids[i]) + fresh_list(kids, i + 1)
    } else {
        0
    }
}

/// The number of live nodes that reconciling `n` against `prev` creates.
pub open spec fn creations(n: VNode, prev: Option<VNode>) -> nat
    decreases n, 0nat,
{
    if prev is Some && reusable(n, prev->0) {
        match (n, prev->0) {
            (VNode::VTag(a), VNode::VTag(b)) => kid_creations(a.children@, b.children@, 0),
            _ => 0,
        }
    } else {
        fresh_count(n)
    }
}

/// The number of live nodes that reconciling `kids[i..]` against `olds` creates.
pub open spec fn kid_creations(kids: Seq<VNode>, olds: Seq<VNode>, i: int) -> nat
    decreases kids, kids.len() - i,
{
    if 0 <= i < kids.len() {
        (if i < olds.len() {
            creations(kids[i], Some(olds[i]))
        } else {
            fresh_count(kids[i])
        }) + kid_creations(kids, olds, i + 1)
    } else {
        0
    }
}

/// The number of live nodes that reconciling `n` against `prev` detaches.
pub open spec fn removals(n: VNode, prev: Option<VNode>) -> nat
    decreases n, 0nat,
{
    if prev is Some && reusable(n, prev->0) {
        match (n, prev->0) {
            (VNode::VTag(a), VNode::VTag(b)) => kid_removals(a.children@, b.children@, 0) + if b.children@.len()
                > a.children@.len() {
                (b.children@.len() - a.children@.len()) as nat
            } else {
                0nat
            },
            _ => 0,
        }
    } else if prev is Some && prev->0.bound() is Some {
        1
    } else {
        0
    }
}

/// The number of live nodes that reconciling `kids[i..]` against `olds` detaches,
/// leftover old nodes aside.
pub open spec fn kid_removals(kids: Seq<VNode>, olds: Seq<VNode>, i: int) -> nat
    decreases kids, kids.len() - i,
{
    if 0 <= i < kids.len() {
        (if i < olds.len() {
            removals(kids[i], Some(olds[i]))
        } else {
            0
        }) + kid_removals(kids, olds, i + 1)
    } else {
        0
    }
}

/// Whether `later` is `earlier` with mutations appended.
pub open spec fn log_extends(earlier: Seq<Mutation>, later: Seq<Mutation>) -> bool {
    &&& earlier.len() <= later.len()
    &&& forall|k: int| 0 <= k < earlier.len() ==> later[k] == earlier[k]
}

/// The live node that a previous version, if any, is bound to.
pub open spec fn bound_of(prev: Option<VNode>) -> Option<usize> {
    match prev {
        Some(p) => p.bound(),
        None => None,
    }
}

/// On which inputs a reconciliation succeeds, where that does not hang on the
/// children of a reused element: a replaced node must be found under
/// `parent`, a reused one must be bound to a live node.
pub open spec fn success_owed(n0: VNode, prev: Option<VNode>, parent: usize, d0: Document, ok: bool) -> bool {
    let id = bound_of(prev)->0;
    if prev matches Some(p) && reusable(n0, p) {
        &&& n0 is VText ==> (ok <==> (id < d0.nodes@.len() && d0.children_of(parent).contains(id)))
        &&& n0 is VComp ==> (ok <==> (id < d0.nodes@.len() && d0.children_of(parent).contains(id)
            && d0.nodes@[id as int].data is Component))
        &&& id >= d0.nodes@.len() ==> !ok
    } else {
        ok <==> (bound_of(prev) is None || d0.children_of(parent).contains(id))
    }
}

/// What a successful reconciliation of `n0` against `prev` under `parent`
/// leaves: `n1` is the reconciled tree, `d0` and `d1` the render target before
/// and after.
pub open spec fn applied(
    n0: VNode,
    n1: VNode,
    prev: Option<VNode>,
    parent: usize,
    d0: Document,
    d1: Document,
) -> bool {
    let reused = prev matches Some(p) && reusable(n0, p);
    let id = n1.bound()->0;
    let old_bound = bound_of(prev);
    &&& d1.nodes@.len() == d0.nodes@.len() + creations(n0, prev)
    &&& removal_count(d1.log@) == removal_count(d0.log@) + removals(n0, prev)
    &&& log_extends(d0.log@, d1.log@)
    &&& n1.bound() is Some
    &&& id < d1.nodes@.len()
    &&& same_shape(n1, n0)
    &&& fully_bound(n1)
    &&& reused ==> n1.bound() == prev->0.bound()
    &&& d1.children_of(parent).contains(id)
    &&& (!reused || !(n0 is VTag)) ==> data_matches(d1.nodes@[id as int].data, n1)
    &&& (!reused || !(n0 is VTag)) ==> reflects(d1, n1)
    &&& (reused && !(n0 is VTag)) ==> {
        &&& d1.nodes@[id as int].children == d0.nodes@[id as int].children
        &&& forall|j: int| 0 <= j < d0.nodes@.len() && j != id ==> d1.nodes@[j] == d0.nodes@[j]
    }
    &&& !reused ==> within(n1, d0.nodes@.len() as int, d1.nodes@.len() as int)
    &&& !reused ==> d0.nodes@.len() <= id
    &&& (!reused && old_bound is Some) ==> {
        &&& d1.log@[d0.log@.len() as int] == Mutation::Remove { parent, child: old_bound->0 }
        &&& exists|i: int| 0 <= i < d0.children_of(parent).len()
            && d0.children_of(parent)[i] == old_bound->0
            && d1.children_of(parent) == d0.children_of(parent).update(i, id)
    }
    &&& (!reused && old_bound is None) ==> d1.children_of(parent)
        == d0.children_of(parent).push(id)
}

/// Whether the render target shows the tree: each node is bound to a live
/// node with its data, and an element's live children are its children's
/// live nodes, in order.
pub open spec fn reflects(d: Document, n: VNode) -> bool
    decreases n,
{
    &&& n.bound() is Some
    &&& n.bound()->0 < d.nodes@.len()
    &&& data_matches(d.nodes@[n.bound()->0 as int].data, n)
    &&& match n {
        VNode::VTag(t) => {
            &&& d.children_of(n.bound()->0) == handles(t.children@)
            &&& forall|i: int| 0 <= i < t.children@.len() ==> reflects(d, #[trigger] t.children@[i])
        },
        _ => true,
    }
}

/// Whether every node of the tree is bound to a handle in `lo..hi`.
pub open spec fn within(n: VNode, lo: int, hi: int) -> bool
    decreases n,
{
    &&& n.bound() is Some
    &&& lo <= n.bound()->0 < hi
    &&& match n {
        VNode::VTag(t) => forall|i: int| 0 <= i < t.children@.len() ==> within(#[trigger] t.children@[i], lo, hi),
        _ => true,
    }
}

/// A tree bound within `lo..hi` is still bound within a wider range.
pub proof fn lemma_within_widen(n: VNode, lo: int, hi: int, lo2: int, hi2: int)
    requires
        within(n, lo, hi),
        lo2 <= lo,
        hi <= hi2,
    ensures
        within(n, lo2, hi2),
    decreases n,
{
    if let VNode::VTag(t) = n {
        assert forall|i: int| 0 <= i < t.children@.len() implies within(#[trigger] t.children@[i], lo2, hi2) by {
            assert(decreases_to!(n => t));
            assert(decreases_to!(t => t.children));
            vstd::std_specs::vec::axiom_vec_index_decreases(t.children, i);
            lemma_within_widen(t.children@[i], lo, hi, lo2, hi2);
        }
    }
}

/// What a tree bound within `lo..hi` shows depends on those live nodes alone.
proof fn lemma_reflects_frame(d: Document, d2: Document, n: VNode, lo: int, hi: int)
    requires
        reflects(d, n),
        within(n, lo, hi),
        hi <= d2.nodes@.len(),
        forall|j: int| lo <= j < hi ==> d2.nodes@[j] == d.nodes@[j],
    ensures
        reflects(d2, n),
    decreases n,
{
    if let VNode::VTag(t) = n {
        assert forall|i: int| 0 <= i < t.children@.len() implies reflects(d2, #[trigger] t.children@[i]) by {
            assert(decreases_to!(n => t));
            assert(decreases_to!(t => t.children));
            vstd::std_specs::vec::axiom_vec_index_decreases(t.children, i);
            lemma_reflects_frame(d, d2, t.children@[i], lo, hi);
        }
    }
}

/// Whether every node of `a` is bound to the live node of the node at the same
/// position in `b`.
pub open spec fn binds_like(a: VNode, b: VNode) -> bool
    decreases a,
{
    &&& a.bound() == b.bound()
    &&& match (a, b) {
        (VNode::VTag(x), VNode::VTag(y)) => {
            &&& x.children@.len() == y.children@.len()
            &&& forall|i: int| 0 <= i < x.children@.len() ==> binds_like(#[trigger] x.children@[i], y.children@[i])
        },
        _ => true,
    }
}

/// Whether each new child has an old child of the same content at its
/// position, which the render target shows.
pub open spec fn steady_shown(kids: Seq<VNode>, olds: Seq<VNode>, parent: usize, d: Document) -> bool {
    &&& kids.len() == olds.len()
    &&& d.children_of(parent) == handles(olds)
    &&& forall|j: int| 0 <= j < kids.len() ==> same_shape(#[trigger] kids[j], olds[j]) && reflects(d, olds[j])
}

/// A tree of the same content as a shown tree, bound to the same live nodes,
/// is shown too.
pub proof fn lemma_reflects_transfer(d: Document, a: VNode, b: VNode)
    requires
        reflects(d, b),
        same_shape(a, b),
        binds_like(a, b),
    ensures
        reflects(d, a),
    decreases a,
{
    if let (VNode::VTag(x), VNode::VTag(y)) = (a, b) {
        assert forall|i: int| 0 <= i < x.children@.len() implies reflects(d, #[trigger] x.children@[i]) by {
            assert(decreases_to!(a => x));
            assert(decreases_to!(x => x.children));
            vstd::std_specs::vec::axiom_vec_index_decreases(x.children, i);
            assert(same_shape(x.children@[i], y.children@[i]));
            assert(binds_like(x.children@[i], y.children@[i]));
            lemma_reflects_transfer(d, x.children@[i], y.children@[i]);
        }
        assert(handles(x.children@) =~= handles(y.children@)) by {
            assert forall|i: int| 0 <= i < x.children@.len() implies handles(x.children@)[i] == handles(y.children@)[i] by {
                assert(binds_like(x.children@[i], y.children@[i]));
            }
        }
    }
}

/// Whether two trees have the same kinds, tags and child counts at every
/// position: they may differ in the text of their text runs.
pub open spec fn same_skeleton(a: VNode, b: VNode) -> bool
    decreases a,
{
    match (a, b) {
        (VNode::VTag(x), VNode::VTag(y)) => {
            &&& x.tag@ == y.tag@
            &&& x.children@.len() == y.children@.len()
            &&& forall|i: int| 0 <= i < x.children@.len() ==> same_skeleton(#[trigger] x.children@[i], y.children@[i])
        },
        (VNode::VText(_), VNode::VText(_)) => true,
        (VNode::VComp(_), VNode::VComp(_)) => true,
        _ => false,
    }
}

/// Whether the render target shows the structure of the tree: each node is
/// bound to a live node of its kind, and an element's live children are its
/// children's live nodes, in order.
pub open spec fn skeleton_shown(d: Document, n: VNode) -> bool
    decreases n,
{
    &&& n.bound() is Some
    &&& n.bound()->0 < d.nodes@.len()
    &&& match n {
        VNode::VTag(t) => {
            &&& d.children_of(n.bound()->0) == handles(t.children@)
            &&& forall|i: int| 0 <= i < t.children@.len() ==> skeleton_shown(d, #[trigger] t.children@[i])
        },
        VNode::VText(_) => d.nodes@[n.bound()->0 as int].data is Text,
        VNode::VComp(_) => d.nodes@[n.bound()->0 as int].data is Component,
        VNode::VRef(_) => true,
    }
}

/// Whether `d1` differs from `d0` by text updates alone: the same nodes and
/// children, text nodes stay text nodes, other nodes keep their data, and the
/// log gained `SetText` entries only.
pub open spec fn text_only_change(d0: Document, d1: Document) -> bool {
    &&& d1.nodes@.len() == d0.nodes@.len()
    &&& forall|j: int| 0 <= j < d0.nodes@.len() ==> {
        &&& (#[trigger] d1.nodes@[j]).children == d0.nodes@[j].children
        &&& if d0.nodes@[j].data is Text { d1.nodes@[j].data is Text } else { d1.nodes@[j].data == d0.nodes@[j].data }
    }
    &&& log_extends(d0.log@, d1.log@)
    &&& forall|k: int| d0.log@.len() <= k < d1.log@.len() ==> (#[trigger] d1.log@[k]) is SetText
}

/// Text updates leave the shown structure of a tree shown.
pub proof fn lemma_skeleton_shown_kept(d0: Document, d1: Document, n: VNode)
    requires
        skeleton_shown(d0, n),
        text_only_change(d0, d1),
    ensures
        skeleton_shown(d1, n),
    decreases n,
{
    let id = n.bound()->0 as int;
    assert(d1.nodes@[id].children == d0.nodes@[id].children);
    if let VNode::VTag(t) = n {
        assert forall|i: int| 0 <= i < t.children@.len() implies skeleton_shown(d1, #[trigger] t.children@[i]) by {
            assert(decreases_to!(n => t));
            assert(decreases_to!(t => t.children));
            vstd::std_specs::vec::axiom_vec_index_decreases(t.children, i);
            lemma_skeleton_shown_kept(d0, d1, t.children@[i]);
        }
    }
}

/// Whether each new child has an old child of the same structure at its
/// position, whose structure the render target shows under `parent`.
pub open spec fn skeleton_pairs(kids: Seq<VNode>, olds: Seq<VNode>, parent: usize, d: Document) -> bool {
    &&& kids.len() == olds.len()
    &&& d.children_of(parent) == handles(olds)
    &&& forall|j: int| 0 <= j < kids.len() ==> same_skeleton(#[trigger] kids[j], olds[j]) && skeleton_shown(d, olds[j])
}

/// A sum over a list is at least each of its later terms.
proof fn lemma_fresh_list_bounds(kids: Seq<VNode>, i: int, k: int)
    requires
        0 <= i <= k < kids.len(),
    ensures
        fresh_count(kids[k]) <= fresh_list(kids, i),
    decreases k - i,
{
    if i < k {
        lemma_fresh_list_bounds(kids, i + 1, k);
    }
}

/// Creates the live nodes of `node` afresh, detached, binds the tree to
/// them and returns the handle of its root.
fn mount(node: &mut VNode, dom: &mut Document) -> (r: usize)
    requires
        !contains_ref(*old(node)),
        old(dom).nodes@.len() + fresh_count(*old(node)) <= usize::MAX,
    ensures
        final(node).bound() == Some(r),
        old(dom).nodes@.len() <= r < final(dom).nodes@.len(),
        final(dom).nodes@.len() == old(dom).nodes@.len() + fresh_count(*old(node)),
        forall|j: int| 0 <= j < old(dom).nodes@.len() ==> final(dom).nodes@[j] == old(dom).nodes@[j],
        same_shape(*final(node), *old(node)),
        fully_bound(*final(node)),
        removal_count(final(dom).log@) == removal_count(old(dom).log@),
        log_extends(old(dom).log@, final(dom).log@),
        reflects(*final(dom), *final(node)),
        within(*final(node), old(dom).nodes@.len() as int, final(dom).nodes@.len() as int),
    decreases *old(node),
{
    let ghost n0 = *node;
    match node {
        VNode::VTag(t) => {
            let ghost kids0 = t.children@;
            let ghost tag0 = t.tag;
            let ghost start = dom.nodes@.len();
            proof {
                lemma_removal_count_push(dom.log@, Mutation::Create(dom.nodes@.len() as usize));
            }
            let id = dom.create(NodeData::Element(t.tag.clone()));
            let n = t.children.len();
            let mut i: usize = 0;
            while i < n
                invariant
                    n == kids0.len(),
                    t.children@.len() == n,
                    0 <= i <= n,
                    forall|j: int| 0 <= j < n ==> !contains_ref(#[trigger] kids0[j]),
                    forall|j: int| i <= j < n ==> t.children@[j] == kids0[j],
                    forall|j: int| 0 <= j < i ==> same_shape(#[trigger] t.children@[j], kids0[j]) && fully_bound(t.children@[j]),
                    id == start,
                    id < dom.nodes@.len(),
                    n0 == *old(node),
                    n0 matches VNode::VTag(t0) && t0.children@ == kids0 && t0.tag == tag0,
                    t.tag == tag0,
                    dom.nodes@.len() + fresh_list(kids0, i as int) == start + 1 + fresh_list(kids0, 0),
                    start + 1 + fresh_list(kids0, 0) <= usize::MAX,
                    forall|j: int| 0 <= j < start ==> dom.nodes@[j] == old(dom).nodes@[j],
                    dom.nodes@[id as int].data == NodeData::Element(t.tag),
                    dom.children_of(id) == handles(t.children@.subrange(0, i as int)),
                    removal_count(dom.log@) == removal_count(old(dom).log@),
                    log_extends(old(dom).log@, dom.log@),
                    forall|j: int| 0 <= j < i ==> reflects(*dom, #[trigger] t.children@[j])
                        && within(t.children@[j], (start + 1) as int, dom.nodes@.len() as int),
                decreases n - i,
            {
                assert(fresh_list(kids0, i as int) == fresh_count(kids0[i as int]) + fresh_list(kids0, i + 1));
                proof {
                    let t0 = n0->VTag_0;
                    assert(decreases_to!(n0 => t0));
                    assert(decreases_to!(t0 => t0.children));
                    vstd::std_specs::vec::axiom_vec_index_decreases(t0.children, i as int);
                    assert(decreases_to!(n0 => t0.children@[i as int]));
                    lemma_fresh_list_bounds(kids0, i as int, i as int);
                    lemma_fresh_list_bounds(kids0, 0, i as int);
                }
                let ghost d_before = *dom;
                let cid = mount(&mut t.children[i], dom);
                let ghost d_mid = *dom;
                proof {
                    lemma_removal_count_push(dom.log@, Mutation::Insert { parent: id, child: cid, index: dom.children_of(id).len() as usize });
                }
                dom.append_child(id, cid);
                proof {
                    assert forall|j: int| 0 <= j <= i implies reflects(*dom, #[trigger] t.children@[j])
                        && within(t.children@[j], (start + 1) as int, dom.nodes@.len() as int) by {
                        if j < i {
                            lemma_reflects_frame(d_before, d_mid, t.children@[j], (start + 1) as int, d_before.nodes@.len() as int);
                            lemma_within_widen(t.children@[j], (start + 1) as int, d_before.nodes@.len() as int, (start + 1) as int, dom.nodes@.len() as int);
                        } else {
                            lemma_within_widen(t.children@[j], d_before.nodes@.len() as int, d_mid.nodes@.len() as int, (start + 1) as int, dom.nodes@.len() as int);
                        }
                        lemma_reflects_frame(d_mid, *dom, t.children@[j], (start + 1) as int, dom.nodes@.len() as int);
                    }
                }
                assert(handles(t.children@.subrange(0, i + 1)) =~= handles(t.children@.subrange(0, i as int)).push(cid));
                i = i + 1;
            }
            assert(t.children@.subrange(0, n as int) =~= t.children@);
            t.reference = Some(id);
            assert(same_shape(VNode::VTag(*t), n0));
            assert(fully_bound(VNode::VTag(*t)));
            assert(reflects(*dom, VNode::VTag(*t)));
            proof {
                assert forall|j: int| 0 <= j < n implies within(#[trigger] t.children@[j], start as int, dom.nodes@.len() as int) by {
                    lemma_within_widen(t.children@[j], (start + 1) as int, dom.nodes@.len() as int, start as int, dom.nodes@.len() as int);
                }
            }
            assert(within(VNode::VTag(*t), start as int, dom.nodes@.len() as int));
            id
        },
        VNode::VText(t) => {
            proof {
                lemma_removal_count_push(dom.log@, Mutation::Create(dom.nodes@.len() as usize));
            }
            let id = dom.create(NodeData::Text(t.text.clone()));
            t.reference = Some(id);
            id
        },
        VNode::VComp(c) => {
            proof {
                lemma_removal_count_push(dom.log@, Mutation::Create(dom.nodes@.len() as usize));
            }
            let id = dom.create(NodeData::Component);
            c.reference = Some(id);
            id
        },
        VNode::VRef(id) => *id,
    }
}

/// Whether the tree holds a `VRef` anywhere.
fn has_ref(node: &VNode) -> (r: bool)
    ensures
        r == contains_ref(*node),
    decreases *node,
{
    match node {
        VNode::VTag(t) => {
            let mut i: usize = 0;
            while i < t.children.len()
                invariant
                    i <= t.children@.len(),
                    *node == VNode::VTag(*t),
                    forall|j: int| 0 <= j < i ==> !contains_ref(#[trigger] t.children@[j]),
                decreases t.children@.len() - i,
            {
                proof {
                    let tv = (*node)->VTag_0;
                    assert(decreases_to!(*node => tv));
                    assert(decreases_to!(tv => tv.children));
                    vstd::std_specs::vec::axiom_vec_index_decreases(tv.children, i as int);
                }
                if has_ref(&t.children[i]) {
                    assert(contains_ref(t.children@[i as int]));
                    return true;
                }
                i = i + 1;
            }
            false
        },
        VNode::VRef(_) => true,
        _ => false,
    }
}

/// Whether `node` may keep the live node of `prev`.
fn can_reuse(node: &VNode, prev: &VNode) -> (r: bool)
    ensures
        r == reusable(*node, *prev),
{
    match (node, prev) {
        (VNode::VTag(a), VNode::VTag(b)) => b.reference.is_some() && a.tag == b.tag,
        (VNode::VText(_), VNode::VText(b)) => b.reference.is_some(),
        (VNode::VComp(_), VNode::VComp(b)) => b.reference.is_some(),
        _ => false,
    }
}

/// Reconciles `node` against `prev` under `parent`: keeps the live node of
/// `prev` where it is reusable, else detaches it and mounts `node` afresh in
/// its place.
fn reconcile(node: &mut VNode, parent: usize, prev: Option<VNode>, dom: &mut Document) -> (r: Result<(), ApplyError>)
    requires
        !contains_ref(*old(node)),
        parent < old(dom).nodes@.len(),
        old(dom).nodes@.len() + creations(*old(node), prev) <= usize::MAX,
    ensures
        r is Ok ==> applied(*old(node), *final(node), prev, parent, *old(dom), *final(dom)),
        r is Err ==> r == Err::<(), ApplyError>(ApplyError::Detached),
        prev is None ==> r is Ok,
        success_owed(*old(node), prev, parent, *old(dom), r is Ok),
        (prev matches Some(p) && same_shape(*old(node), p) && reflects(*old(dom), p)
            && old(dom).children_of(parent).contains(p.bound()->0)) ==> {
            &&& r is Ok
            &&& *final(dom) == *old(dom)
            &&& binds_like(*final(node), prev->0)
        },
        (prev matches Some(p) && same_skeleton(*old(node), p) && skeleton_shown(*old(dom), p)
            && old(dom).children_of(parent).contains(p.bound()->0)) ==> {
            &&& r is Ok
            &&& text_only_change(*old(dom), *final(dom))
            &&& binds_like(*final(node), prev->0)
        },
    decreases *old(node), 1nat,
{
    let reuse = match &prev {
        Some(p) => can_reuse(node, p),
        None => false,
    };
    if !reuse {
        let ghost log0 = dom.log@;
        let pos: Option<usize> = match &prev {
            Some(p) => match p.get_node() {
                Some(o) => match dom.remove_child(parent, o) {
                    Ok(i) => {
                        proof {
                            lemma_removal_count_push(log0, Mutation::Remove { parent, child: o });
                        }
                        Some(i)
                    },
                    Err(_) => {
                        return Err(ApplyError::Detached);
                    },
                },
                None => None,
            },
            None => None,
        };
        let ghost mid = *dom;
        let id = mount(node, dom);
        let ghost log1 = dom.log@;
        let ghost mounted = *dom;
        match pos {
            Some(i) => {
                proof {
                    lemma_removal_count_push(log1, Mutation::Insert { parent, child: id, index: i });
                }
                dom.insert_child(parent, id, i);
                assert(dom.children_of(parent) =~= old(dom).children_of(parent).update(i as int, id));
                assert(dom.children_of(parent)[i as int] == id);
            },
            None => {
                dom.append_child(parent, id);
                proof {
                    lemma_removal_count_push(log1, dom.log@.last());
                    assert(dom.log@ == log1.push(dom.log@.last()));
                    assert(dom.children_of(parent)[dom.children_of(parent).len() - 1] == id);
                }
            },
        }
        proof {
            lemma_reflects_frame(mounted, *dom, *node, mid.nodes@.len() as int, dom.nodes@.len() as int);
        }
        return Ok(());
    }
    // From here `prev` is a bound node of the same kind as `node`: the arms
    // below that would find otherwise are never reached.
    let p = match prev {
        Some(p) => p,
        None => {
            return Ok(());
        },
    };
    match node {
        VNode::VText(t) => {
            let id = match p.get_node() {
                Some(id) => id,
                None => {
                    return Ok(());
                },
            };
            if id >= dom.nodes.len() || dom.index_of(parent, id).is_none() {
                return Err(ApplyError::Detached);
            }
            let same = match &dom.nodes[id].data {
                NodeData::Text(s) => *s == t.text,
                _ => false,
            };
            if !same {
                proof {
                    lemma_removal_count_push(dom.log@, Mutation::SetText(id));
                }
                dom.set_text(id, t.text.clone());
            }
            t.reference = Some(id);
            Ok(())
        },
        VNode::VComp(c) => {
            let id = match p.get_node() {
                Some(id) => id,
                None => {
                    return Ok(());
                },
            };
            if id >= dom.nodes.len() || dom.index_of(parent, id).is_none() {
                return Err(ApplyError::Detached);
            }
            match &dom.nodes[id].data {
                NodeData::Component => {},
                _ => {
                    return Err(ApplyError::Detached);
                },
            }
            c.reference = Some(id);
            Ok(())
        },
        VNode::VTag(a) => {
            let ghost n0 = *old(node);
            match p {
                VNode::VTag(b) => {
                    let id = match b.reference {
                        Some(id) => id,
                        None => {
                            return Ok(());
                        },
                    };
                    if id >= dom.nodes.len() {
                        return Err(ApplyError::Detached);
                    }
                    proof {
                        let tv = n0->VTag_0;
                        assert(decreases_to!(n0 => tv));
                        assert(decreases_to!(tv => tv.children));
                    }
                    proof {
                        if same_shape(n0, VNode::VTag(b)) && reflects(*old(dom), VNode::VTag(b)) {
                            assert forall|j: int| 0 <= j < b.children@.len() implies same_shape(
                                #[trigger] a.children@[j],
                                b.children@[j],
                            ) && reflects(*old(dom), b.children@[j]) by {
                                assert(same_shape(a.children@[j], b.children@[j]));
                            }
                        }
                    }
                    match reconcile_children(&mut a.children, b.children, id, dom) {
                        Ok(()) => {},
                        Err(e) => {
                            return Err(e);
                        },
                    }
                    if dom.index_of(parent, id).is_none() {
                        return Err(ApplyError::Detached);
                    }
                    a.reference = Some(id);
                    assert(same_shape(VNode::VTag(*a), n0));
                    assert(fully_bound(VNode::VTag(*a)));
                    Ok(())
                },
                _ => Ok(()),
            }
        },
        VNode::VRef(_) => Ok(()),
    }
}

/// Reconciles each new child against the old child at its position under
/// `parent`, mounts the new children that have none, and detaches the old
/// children left over.
fn reconcile_children(kids: &mut Vec<VNode>, olds: Vec<VNode>, parent: usize, dom: &mut Document) -> (r: Result<
    (),
    ApplyError,
>)
    requires
        forall|j: int| 0 <= j < old(kids)@.len() ==> !contains_ref(#[trigger] old(kids)@[j]),
        parent < old(dom).nodes@.len(),
        old(dom).nodes@.len() + kid_creations(old(kids)@, olds@, 0) <= usize::MAX,
    ensures
        r is Err ==> r == Err::<(), ApplyError>(ApplyError::Detached),
        r is Ok ==> {
            &&& final(dom).nodes@.len() == old(dom).nodes@.len() + kid_creations(old(kids)@, olds@, 0)
            &&& removal_count(final(dom).log@) == removal_count(old(dom).log@) + kid_removals(
                old(kids)@,
                olds@,
                0,
            ) + if olds@.len() > old(kids)@.len() {
                (olds@.len() - old(kids)@.len()) as nat
            } else {
                0nat
            }
            &&& log_extends(old(dom).log@, final(dom).log@)
            &&& final(kids)@.len() == old(kids)@.len()
            &&& forall|j: int| 0 <= j < final(kids)@.len() ==> same_shape(#[trigger] final(kids)@[j], old(kids)@[j])
                && fully_bound(final(kids)@[j])
        },
        steady_shown(old(kids)@, olds@, parent, *old(dom)) ==> {
            &&& r is Ok
            &&& *final(dom) == *old(dom)
            &&& forall|j: int| 0 <= j < final(kids)@.len() ==> binds_like(#[trigger] final(kids)@[j], olds@[j])
        },
        skeleton_pairs(old(kids)@, olds@, parent, *old(dom)) ==> {
            &&& r is Ok
            &&& text_only_change(*old(dom), *final(dom))
            &&& forall|j: int| 0 <= j < final(kids)@.len() ==> binds_like(#[trigger] final(kids)@[j], olds@[j])
        },
    decreases *old(kids),
{
    let ghost kv0 = *kids;
    let ghost k0 = kids@;
    let ghost o0 = olds@;
    let ghost start = dom.nodes@.len();
    let ghost rc0 = removal_count(dom.log@);
    let mut rest = olds;
    let n = kids.len();
    let m = rest.len();
    let mut i: usize = 0;
    while i < n
        invariant
            kv0 == *old(kids),
            k0 == kv0@,
            o0.len() == m,
            o0 == olds@,
            k0.len() == n,
            kids@.len() == n,
            rest@.len() == m,
            0 <= i <= n,
            forall|j: int| i <= j < n ==> kids@[j] == k0[j],
            forall|j: int| i <= j < m ==> rest@[j] == o0[j],
            forall|j: int| 0 <= j < i ==> same_shape(#[trigger] kids@[j], k0[j]) && fully_bound(kids@[j]),
            forall|j: int| 0 <= j < n ==> !contains_ref(#[trigger] k0[j]),
            parent < start <= dom.nodes@.len(),
            start == old(dom).nodes@.len(),
            dom.nodes@.len() + kid_creations(k0, o0, i as int) == start + kid_creations(k0, o0, 0),
            start + kid_creations(k0, o0, 0) <= usize::MAX,
            removal_count(dom.log@) + kid_removals(k0, o0, i as int) == rc0 + kid_removals(k0, o0, 0),
            rc0 == removal_count(old(dom).log@),
            log_extends(old(dom).log@, dom.log@),
            steady_shown(k0, o0, parent, *old(dom)) ==> m == n && *dom == *old(dom)
                && forall|j: int| 0 <= j < i ==> binds_like(#[trigger] kids@[j], o0[j]),
            skeleton_pairs(k0, o0, parent, *old(dom)) ==> {
                &&& m == n
                &&& text_only_change(*old(dom), *dom)
                &&& forall|j: int| 0 <= j < i ==> binds_like(#[trigger] kids@[j], o0[j])
            },
        decreases n - i,
    {
        assert(kid_creations(k0, o0, i as int) == (if i < m { creations(k0[i as int], Some(o0[i as int])) } else { fresh_count(k0[i as int]) }) + kid_creations(k0, o0, i + 1));
        assert(kid_removals(k0, o0, i as int) == (if i < m { removals(k0[i as int], Some(o0[i as int])) } else { 0 }) + kid_removals(k0, o0, i + 1));
        proof {
            vstd::std_specs::vec::axiom_vec_index_decreases(kv0, i as int);
        }
        if i < m {
            let mut o = VNode::VComp(VComp { reference: None });
            rest.set_and_swap(i, &mut o);
            assert(steady_shown(k0, o0, parent, *old(dom)) ==> same_shape(kids@[i as int], o) && reflects(*dom, o)
                && dom.children_of(parent).contains(o.bound()->0)) by {
                if steady_shown(k0, o0, parent, *old(dom)) {
                    assert(same_shape(k0[i as int], o0[i as int]));
                    assert(handles(o0)[i as int] == o.bound()->0);
                }
            }
            assert(skeleton_pairs(k0, o0, parent, *old(dom)) ==> same_skeleton(kids@[i as int], o) && skeleton_shown(*dom, o)
                && dom.children_of(parent).contains(o.bound()->0)) by {
                if skeleton_pairs(k0, o0, parent, *old(dom)) {
                    assert(same_skeleton(k0[i as int], o0[i as int]));
                    lemma_skeleton_shown_kept(*old(dom), *dom, o);
                    assert(dom.nodes@[parent as int].children == old(dom).nodes@[parent as int].children);
                    assert(handles(o0)[i as int] == o.bound()->0);
                }
            }
            match reconcile(&mut kids[i], parent, Some(o), dom) {
                Ok(()) => {},
                Err(e) => {
                    return Err(e);
                },
            }
        } else {
            let cid = mount(&mut kids[i], dom);
            let ghost log1 = dom.log@;
            dom.append_child(parent, cid);
            proof {
                lemma_removal_count_push(log1, dom.log@.last());
                assert(dom.log@ == log1.push(dom.log@.last()));
            }
        }
        i = i + 1;
    }
    let ghost rc1 = removal_count(dom.log@);
    let mut j: usize = n;
    while j < m
        invariant
            o0.len() == m,
            o0 == olds@,
            rest@.len() == m,
            n <= j,
            j <= m || j == n,
            k0 == old(kids)@,
            steady_shown(k0, o0, parent, *old(dom)) ==> m == n && *dom == *old(dom)
                && forall|x: int| 0 <= x < n ==> binds_like(#[trigger] kids@[x], o0[x]),
            skeleton_pairs(k0, o0, parent, *old(dom)) ==> m == n && text_only_change(*old(dom), *dom)
                && forall|x: int| 0 <= x < n ==> binds_like(#[trigger] kids@[x], o0[x]),
            kids@.len() == n,
            k0.len() == n,
            forall|x: int| j <= x < m ==> rest@[x] == o0[x],
            forall|x: int| 0 <= x < n ==> same_shape(#[trigger] kids@[x], k0[x]) && fully_bound(kids@[x]),
            parent < dom.nodes@.len(),
            dom.nodes@.len() == start + kid_creations(k0, o0, 0),
            removal_count(dom.log@) == rc1 + (j - n),
            rc1 == rc0 + kid_removals(k0, o0, 0),
            rc0 == removal_count(old(dom).log@),
            log_extends(old(dom).log@, dom.log@),
        decreases m - j,
    {
        let mut o = VNode::VComp(VComp { reference: None });
        rest.set_and_swap(j, &mut o);
        let ghost log0 = dom.log@;
        let id = match o.get_node() {
            Some(id) => id,
            None => {
                return Err(ApplyError::Detached);
            },
        };
        match dom.remove_child(parent, id) {
            Ok(_) => {
                proof {
                    lemma_removal_count_push(log0, Mutation::Remove { parent, child: id });
                }
            },
            Err(_) => {
                return Err(ApplyError::Detached);
            },
        }
        j = j + 1;
    }
    proof {
        if steady_shown(k0, o0, parent, *old(dom)) || skeleton_pairs(k0, o0, parent, *old(dom)) {
            assert forall|x: int| 0 <= x < kids@.len() implies binds_like(#[trigger] kids@[x], olds@[x]) by {
                assert(binds_like(kids@[x], o0[x]));
            }
        }
    }
    Ok(())
}

impl VNode {
    /// The live node this virtual node is bound to; for a `VRef`, the node it
    /// holds.
    pub fn get_node(&self) -> (r: Option<usize>)
        ensures
            r == self.bound(),
    {
        match self {
            VNode::VTag(t) => t.reference,
            VNode::VText(t) => t.reference,
            VNode::VComp(c) => c.reference,
            VNode::VRef(id) => Some(*id),
        }
    }

    /// Whether this tree can be reconciled: it holds no `VRef`.
    pub fn is_renderable(&self) -> (r: bool)
        ensures
            r == !contains_ref(*self),
    {
        !has_ref(self)
    }

    /// Reconciles this node against `opposite`, its previous version if any,
    /// under the live node `parent`, and binds it to the live node that now
    /// stands for it. A `VRef` cannot be reconciled: the tree must hold none.
    pub fn apply(&mut self, parent: usize, opposite: Option<VNode>, dom: &mut Document) -> (r: Result<
        (),
        ApplyError,
    >)
        requires
            !contains_ref(*old(self)),
            parent < old(dom).nodes@.len(),
            old(dom).nodes@.len() + creations(*old(self), opposite) <= usize::MAX,
        ensures
            r is Err ==> r == Err::<(), ApplyError>(ApplyError::Detached),
            opposite is None ==> r is Ok,
            success_owed(*old(self), opposite, parent, *old(dom), r is Ok),
            (opposite matches Some(p) && same_shape(*old(self), p) && reflects(*old(dom), p)
                && old(dom).children_of(parent).contains(p.bound()->0)) ==> {
                &&& r is Ok
                &&& *final(dom) == *old(dom)
                &&& binds_like(*final(self), opposite->0)
                &&& reflects(*final(dom), *final(self))
            },
            (opposite matches Some(p) && same_skeleton(*old(self), p) && skeleton_shown(*old(dom), p)
                && old(dom).children_of(parent).contains(p.bound()->0)) ==> {
                &&& r is Ok
                &&& text_only_change(*old(dom), *final(dom))
                &&& binds_like(*final(self), opposite->0)
            },
            r is Ok ==> applied(*old(self), *final(self), opposite, parent, *old(dom), *final(dom)),
    {
        let ghost n0 = *self;
        let r = reconcile(self, parent, opposite, dom);
        proof {
            if opposite is Some && same_shape(n0, opposite->0) && reflects(*old(dom), opposite->0)
                && old(dom).children_of(parent).contains(opposite->0.bound()->0) {
                let p = opposite->0;
                crate::laws::lemma_same_shape_symmetric(n0, p);
                crate::laws::lemma_same_shape_common(*self, p, n0);
                lemma_reflects_transfer(*dom, *self, p);
            }
        }
        r
    }

    /// Detaches the live node of this virtual node from `parent`, whose child
    /// it must be.
    pub fn remove(self, parent: usize, dom: &mut Document)
        requires
            self.bound() is Some,
            parent < old(dom).nodes@.len(),
            old(dom).children_of(parent).contains(self.bound()->0),
        ensures
            ({
                let id = self.bound()->0;
                &&& final(dom).nodes@.len() == old(dom).nodes@.len()
                &&& forall|j: int| 0 <= j < old(dom).nodes@.len() && j != parent ==> final(dom).nodes@[j] == old(dom).nodes@[j]
                &&& final(dom).nodes@[parent as int].data == old(dom).nodes@[parent as int].data
                &&& exists|i: int| 0 <= i < old(dom).children_of(parent).len()
                    && old(dom).children_of(parent)[i] == id
                    && final(dom).children_of(parent) == old(dom).children_of(parent).remove(i)
                &&& final(dom).log@ == old(dom).log@.push(Mutation::Remove { parent, child: id })
            }),
    {
        match self.get_node() {
            None => {},
            Some(id) => match dom.remove_child(parent, id) {
                Ok(i) => {
                    assert(final(dom).children_of(parent) == old(dom).children_of(parent).remove(i as int));
                },
                Err(_) => {},
            },
        }
    }
}

/// Whether two trees are equal in the sense of `==`.
fn nodes_equal(a: &VNode, b: &VNode) -> (r: bool)
    ensures
        r == content_eq(*a, *b),
    decreases *a,
{
    match (a, b) {
        (VNode::VTag(x), VNode::VTag(y)) => {
            if x.tag != y.tag || x.children.len() != y.children.len() {
                return false;
            }
            let mut i: usize = 0;
            while i < x.children.len()
                invariant
                    i <= x.children@.len(),
                    x.children@.len() == y.children@.len(),
                    *a == VNode::VTag(*x),
                    *b == VNode::VTag(*y),
                    forall|j: int| 0 <= j < i ==> content_eq(#[trigger] x.children@[j], y.children@[j]),
                decreases x.children@.len() - i,
            {
                proof {
                    let tv = (*a)->VTag_0;
                    assert(decreases_to!(*a => tv));
                    assert(decreases_to!(tv => tv.children));
                    vstd::std_specs::vec::axiom_vec_index_decreases(tv.children, i as int);
                }
                if !nodes_equal(&x.children[i], &y.children[i]) {
                    assert(!content_eq(x.children@[i as int], y.children@[i as int]));
                    return false;
                }
                i = i + 1;
            }
            true
        },
        (VNode::VText(x), VNode::VText(y)) => x.text == y.text,
        _ => false,
    }
}

impl PartialEq for VNode {
    /// Elements and texts compare by content; a component or a reference is
    /// never equal to anything.
    fn eq(&self, other: &VNode) -> (r: bool) {
        nodes_equal(self, other)
    }
}

impl vstd::std_specs::cmp::PartialEqSpecImpl for VNode {
    open spec fn obeys_eq_spec() -> bool {
        true
    }

    open spec fn eq_spec(&self, other: &VNode) -> bool {
        content_eq(*self, *other)
    }
}

impl VTag {
    /// An element with the given tag, no children, not yet bound.
    pub fn new(tag: String) -> (r: VTag)
        ensures
            r.tag == tag,
            r.children@.len() == 0,
            r.reference is None,
    {
        VTag { tag, children: Vec::new(), reference: None }
    }

    /// Appends a child.
    pub fn add_child(&mut self, child: VNode)
        ensures
            final(self).tag == old(self).tag,
            final(self).reference == old(self).reference,
            final(self).children@ == old(self).children@.push(child),
    {
        self.children.push(child);
    }
}

impl VText {
    /// A text run, not yet bound.
    pub fn new(text: String) -> (r: VText)
        ensures
            r.text == text,
            r.reference is None,
    {
        VText { text, reference: None }
    }
}

impl VComp {
    /// A component, not yet mounted.
    pub fn new() -> (r: VComp)
        ensures
            r.reference is None,
    {
        VComp { reference: None }
    }
}

impl From<VText> for VNode {
    fn from(vtext: VText) -> (r: VNode) {
        VNode::VText(vtext)
    }
}

impl vstd::std_specs::convert::FromSpecImpl<VText> for VNode {
    open spec fn obeys_from_spec() -> bool {
        true
    }

    open spec fn from_spec(vtext: VText) -> VNode {
        VNode::VText(vtext)
    }
}

impl From<VTag> for VNode {
    fn from(vtag: VTag) -> (r: VNode) {
        VNode::VTag(vtag)
    }
}

impl vstd::std_specs::convert::FromSpecImpl<VTag> for VNode {
    open spec fn obeys_from_spec() -> bool {
        true
    }

    open spec fn from_spec(vtag: VTag) -> VNode {
        VNode::VTag(vtag)
    }
}

impl From<VComp> for VNode {
    fn from(vcomp: VComp) -> (r: VNode) {
        VNode::VComp(vcomp)
    }
}

impl vstd::std_specs::convert::FromSpecImpl<VComp> for VNode {
    open spec fn obeys_from_spec() -> bool {
        true
    }

    open spec fn from_spec(vcomp: VComp) -> VNode {
        VNode::VComp(vcomp)
    }
}

impl From<String> for VNode {
    fn from(value: String) -> (r: VNode) {
        VNode::VText(VText::new(value))
    }
}

impl vstd::std_specs::convert::FromSpecImpl<String> for VNode {
    open spec fn obeys_from_spec() -> bool {
        true
    }

    open spec fn from_spec(value: String) -> VNode {
        VNode::VText(VText { text: value, reference: None })
    }
}

} // verus!

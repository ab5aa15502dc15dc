//! The live render target: an arena of nodes addressed by stable handles,
//! with a log of every mutation made to it.
use vstd::prelude::*;

verus! {

/// What a live node of the render target is.
#[derive(Debug, Clone, PartialEq, Eq)]
pub enum NodeData {
    /// An element with its tag name.
    Element(String),
    /// A text run.
    Text(String),
    /// The mount point of a nested component.
    Component,
}

/// A live node: its data and the handles of its children, in order.
#[derive(Debug, Clone, PartialEq, Eq)]
pub struct TargetNode {
    pub data: NodeData,
    pub children: Vec<usize>,
}

/// One mutation made to the render target.
#[derive(Debug, Clone, Copy, PartialEq, Eq, Structural)]
pub enum Mutation {
    /// A node was created under the given handle.
    Create(usize),
    /// `child` was inserted among `parent`'s children at `index`.
    Insert { parent: usize, child: usize, index: usize },
    /// `child` was detached from `parent`.
    Remove { parent: usize, child: usize },
    /// The text of a text node was replaced.
    SetText(usize),
}

/// A detach found the child not under the parent it was said to be under.
#[derive(Debug, Clone, Copy, PartialEq, Eq, Structural)]
pub struct DetachError;

/// The render target: nodes are never freed, so a handle stays valid.
pub struct Document {
    pub nodes: Vec<TargetNode>,
    pub log: Vec<Mutation>,
}

/// Whether `m` is a removal.
pub open spec fn is_removal(m: Mutation) -> bool {
    m is Remove
}

/// The number of removals in a log.
pub open spec fn removal_count(log: Seq<Mutation>) -> nat
    decreases log.len(),
{
    if log.len() == 0 {
        0
    } else {
        removal_count(log.drop_last()) + if is_removal(log.last()) { 1nat } else { 0nat }
    }
}

/// Appending a mutation counts one more removal exactly when it is one.
pub proof fn lemma_removal_count_push(log: Seq<Mutation>, m: Mutation)
    ensures
        removal_count(log.push(m)) == removal_count(log) + if is_removal(m) { 1nat } else { 0nat },
{
    assert(log.push(m).drop_last() == log);
}

impl Document {
    /// The children of node `id`.
    pub open spec fn children_of(&self, id: usize) -> Seq<usize> {
        self.nodes@[id as int].children@
    }

    /// An empty render target.
    pub fn new() -> (r: Document)
        ensures
            r.nodes@.len() == 0,
            r.log@.len() == 0,
    {
        Document { nodes: Vec::new(), log: Vec::new() }
    }

    /// The number of nodes ever created.
    pub fn node_count(&self) -> (r: usize)
        ensures
            r == self.nodes@.len(),
    {
        self.nodes.len()
    }

    /// Creates a detached node holding `data` and returns its handle.
    pub fn create(&mut self, data: NodeData) -> (r: usize)
        requires
            old(self).nodes@.len() < usize::MAX,
        ensures
            r == old(self).nodes@.len(),
            final(self).nodes@ == old(self).nodes@.push(
                TargetNode { data, children: final(self).nodes@[r as int].children },
            ),
            final(self).nodes@[r as int].children@.len() == 0,
            final(self).log@ == old(self).log@.push(Mutation::Create(r)),
    {
        let r = self.nodes.len();
        self.nodes.push(TargetNode { data, children: Vec::new() });
        self.log.push(Mutation::Create(r));
        r
    }

    /// Inserts `child` among the children of `parent` at `index`.
    pub fn insert_child(&mut self, parent: usize, child: usize, index: usize)
        requires
            parent < old(self).nodes@.len(),
            index <= old(self).children_of(parent).len(),
        ensures
            final(self).nodes@.len() == old(self).nodes@.len(),
            final(self).nodes@ == old(self).nodes@.update(
                parent as int,
                TargetNode {
                    data: old(self).nodes@[parent as int].data,
                    children: final(self).nodes@[parent as int].children,
                },
            ),
            final(self).children_of(parent) == old(self).children_of(parent).insert(index as int, child),
            final(self).log@ == old(self).log@.push(Mutation::Insert { parent, child, index }),
    {
        self.nodes[parent].children.insert(index, child);
        self.log.push(Mutation::Insert { parent, child, index });
    }

    /// Inserts `child` as the last child of `parent`.
    pub fn append_child(&mut self, parent: usize, child: usize)
        requires
            parent < old(self).nodes@.len(),
        ensures
            final(self).nodes@ == old(self).nodes@.update(
                parent as int,
                TargetNode {
                    data: old(self).nodes@[parent as int].data,
                    children: final(self).nodes@[parent as int].children,
                },
            ),
            final(self).children_of(parent) == old(self).children_of(parent).push(child),
            final(self).log@ == old(self).log@.push(
                Mutation::Insert { parent, child, index: old(self).children_of(parent).len() as usize },
            ),
    {
        let index = self.nodes[parent].children.len();
        self.insert_child(parent, child, index);
        assert(self.children_of(parent) =~= old(self).children_of(parent).push(child));
    }

    /// The position of `child` among the children of `parent`, if it is one.
    pub fn index_of(&self, parent: usize, child: usize) -> (r: Option<usize>)
        requires
            parent < self.nodes@.len(),
        ensures
            r is Some <==> self.children_of(parent).contains(child),
            r matches Some(i) ==> {
                &&& i < self.children_of(parent).len()
                &&& self.children_of(parent)[i as int] == child
                &&& forall|j: int| 0 <= j < i ==> self.children_of(parent)[j] != child
            },
    {
        let kids = &self.nodes[parent].children;
        let mut i: usize = 0;
        while i < kids.len()
            invariant
                i <= kids@.len(),
                kids@ == self.children_of(parent),
                forall|j: int| 0 <= j < i ==> kids@[j] != child,
            decreases kids@.len() - i,
        {
            if kids[i] == child {
                return Some(i);
            }
            i = i + 1;
        }
        None
    }

    /// Detaches `child` from `parent` and returns the position it had; fails,
    /// changing nothing, where `child` is not a child of `parent`.
    pub fn remove_child(&mut self, parent: usize, child: usize) -> (r: Result<usize, DetachError>)
        ensures
            r is Ok <==> (parent < old(self).nodes@.len() && old(self).children_of(parent).contains(child)),
            r is Err ==> *final(self) == *old(self),
            r matches Ok(i) ==> {
                &&& i < old(self).children_of(parent).len()
                &&& old(self).children_of(parent)[i as int] == child
                &&& final(self).nodes@ == old(self).nodes@.update(
                    parent as int,
                    TargetNode {
                        data: old(self).nodes@[parent as int].data,
                        children: final(self).nodes@[parent as int].children,
                    },
                )
                &&& final(self).children_of(parent) == old(self).children_of(parent).remove(i as int)
                &&& final(self).log@ == old(self).log@.push(Mutation::Remove { parent, child })
            },
    {
        if parent >= self.nodes.len() {
            return Err(DetachError);
        }
        match self.index_of(parent, child) {
            None => Err(DetachError),
            Some(i) => {
                self.nodes[parent].children.remove(i);
                self.log.push(Mutation::Remove { parent, child });
                Ok(i)
            },
        }
    }

    /// Makes node `id` a text node holding `text`, keeping its children.
    pub fn set_text(&mut self, id: usize, text: String)
        requires
            id < old(self).nodes@.len(),
        ensures
            final(self).nodes@ == old(self).nodes@.update(
                id as int,
                TargetNode { data: NodeData::Text(text), children: old(self).nodes@[id as int].children },
            ),
            final(self).log@ == old(self).log@.push(Mutation::SetText(id)),
    {
        self.nodes[id].data = NodeData::Text(text);
        self.log.push(Mutation::SetText(id));
    }
}

} // verus!

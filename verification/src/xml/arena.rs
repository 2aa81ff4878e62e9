//! Where parsed nodes are kept: an arena indexed by [`NodeIndex`].
use vstd::prelude::*;
use super::node::Node;

verus! {

/// The index of a node in a [`VecNodeArena`].
#[derive(PartialEq, Eq, Debug, Clone, Copy, Structural)]
pub struct NodeIndex(pub usize);

/// A list of references to nodes.
pub trait NodeReferenceCollection {
    /// Adds a reference at the end.
    fn add(&mut self, reference: NodeIndex);

    /// The number of references.
    fn count(&self) -> usize;
}

impl NodeReferenceCollection for Vec<NodeIndex> {
    fn add(&mut self, reference: NodeIndex) {
        self.push(reference);
    }

    fn count(&self) -> usize {
        self.len()
    }
}

/// A store of nodes that hands out references to them.
pub trait NodeArena<'a> {
    /// Stores a node and returns its reference.
    fn add_node(&mut self, node: Node<'a>) -> NodeIndex;

    /// The number of nodes stored.
    fn node_count(&self) -> usize;
}

/// Nodes kept in a vector; a node can be taken out and put back.
#[derive(Debug)]
pub struct VecNodeArena<'a>(Vec<Option<Node<'a>>>);

impl<'a> View for VecNodeArena<'a> {
    type V = Seq<Option<Node<'a>>>;

    closed spec fn view(&self) -> Seq<Option<Node<'a>>> {
        self.0@
    }
}

impl<'a> NodeArena<'a> for VecNodeArena<'a> {
    fn add_node(&mut self, node: Node<'a>) -> NodeIndex {
        self.add(node)
    }

    fn node_count(&self) -> usize {
        self.0.len()
    }
}

impl<'a> VecNodeArena<'a> {
    /// An empty arena.
    pub fn new() -> (r: Self)
        ensures
            r@ == Seq::<Option<Node<'a>>>::empty(),
    {
        VecNodeArena(Vec::new())
    }

    /// An empty arena with room for `capacity` nodes.
    pub fn with_capacity(capacity: usize) -> (r: Self)
        ensures
            r@ == Seq::<Option<Node<'a>>>::empty(),
    {
        VecNodeArena(Vec::with_capacity(capacity))
    }

    /// Stores `node` at the end and returns its index.
    pub fn add(&mut self, node: Node<'a>) -> (r: NodeIndex)
        ensures
            final(self)@ == old(self)@.push(Some(node)),
            r.0 == old(self)@.len(),
    {
        let index = NodeIndex(self.0.len());
        self.0.push(Some(node));
        index
    }

    /// The number of slots, taken or not.
    pub fn len(&self) -> (r: usize)
        ensures
            r == self@.len(),
    {
        self.0.len()
    }

    /// Whether no node was ever stored.
    pub fn is_empty(&self) -> (r: bool)
        ensures
            r == (self@.len() == 0),
    {
        self.0.len() == 0
    }

    /// The number of slots, taken or not.
    pub fn count(&self) -> (r: usize)
        ensures
            r == self@.len(),
    {
        self.0.len()
    }

    /// The node at `index`, which must be stored and not taken.
    pub fn get(&self, index: &NodeIndex) -> (r: &Node<'a>)
        requires
            index.0 < self@.len(),
            self@[index.0 as int] is Some,
        ensures
            Some(*r) == self@[index.0 as int],
    {
        match &self.0[index.0] {
            Some(node) => node,
            None => vstd::pervasive::unreached(),
        }
    }

    /// Takes the node at `index` out, leaving its slot empty.
    pub fn take(&mut self, index: &NodeIndex) -> (r: Node<'a>)
        requires
            index.0 < old(self)@.len(),
            old(self)@[index.0 as int] is Some,
        ensures
            Some(r) == old(self)@[index.0 as int],
            final(self)@ == old(self)@.update(index.0 as int, None),
    {
        let mut slot: Option<Node<'a>> = None;
        std::mem::swap(&mut slot, &mut self.0[index.0]);
        match slot {
            Some(node) => node,
            None => vstd::pervasive::unreached(),
        }
    }

    /// Puts `node` at `index`, returning what was there.
    pub fn replace(&mut self, index: &NodeIndex, node: Node<'a>) -> (r: Option<Node<'a>>)
        requires
            index.0 < old(self)@.len(),
        ensures
            r == old(self)@[index.0 as int],
            final(self)@ == old(self)@.update(index.0 as int, Some(node)),
    {
        let mut slot: Option<Node<'a>> = Some(node);
        std::mem::swap(&mut slot, &mut self.0[index.0]);
        slot
    }
}

impl<'a> Default for VecNodeArena<'a> {
    fn default() -> (r: Self)
        ensures
            r@ == Seq::<Option<Node<'a>>>::empty(),
    {
        Self::new()
    }
}

} // verus!

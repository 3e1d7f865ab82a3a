//! Scopes stored side by side in a vector and referred to by their position, so that
//! a tree of scopes can be grown while parents are updated.
use vstd::prelude::*;

verus! {

/// The position of a node in its arena.
#[derive(Clone, Copy, PartialEq, Eq, Structural)]
pub struct NodeId(pub usize);

pub struct Arena<T> {
    pub nodes: Vec<T>,
}

impl<T> Arena<T> {
    pub fn new() -> (r: Self)
        ensures
            r.nodes@.len() == 0,
    {
        Arena { nodes: Vec::new() }
    }

    /// The id the next added node receives.
    pub fn next_id(&self) -> (r: NodeId)
        ensures
            r.0 == self.nodes@.len(),
    {
        NodeId(self.nodes.len())
    }

    pub fn add(&mut self, node: T) -> (r: NodeId)
        ensures
            r.0 == old(self).nodes@.len(),
            final(self).nodes@ == old(self).nodes@.push(node),
    {
        let id = self.next_id();
        self.nodes.push(node);
        id
    }

    pub fn get(&self, id: NodeId) -> (r: Option<&T>)
        ensures
            match r {
                Some(node) => id.0 < self.nodes@.len() && *node == self.nodes@[id.0 as int],
                None => id.0 >= self.nodes@.len(),
            },
    {
        if id.0 < self.nodes.len() {
            Some(&self.nodes[id.0])
        } else {
            None
        }
    }

    pub fn get_mut(&mut self, id: NodeId) -> (r: Option<&mut T>)
        ensures
            match r {
                Some(node) => id.0 < old(self).nodes@.len() && *node == old(self).nodes@[id.0 as int]
                    && final(self).nodes@ == old(self).nodes@.update(id.0 as int, *final(node)),
                None => id.0 >= old(self).nodes@.len() && final(self).nodes@ == old(self).nodes@,
            },
    {
        if id.0 < self.nodes.len() {
            Some(&mut self.nodes[id.0])
        } else {
            None
        }
    }
}

} // verus!

use vstd::prelude::*;

use crate::permutation_graph::permutation_node::PermutationNode;

verus! {

/// One frame of the depth-first search: a node of the graph, by index, and
/// the cursor of the next outgoing edge of that node still to try.
#[derive(Debug)]
pub struct NodeAndIndex {
    pub node: usize,
    pub index: usize,
}

impl NodeAndIndex {
    /// A fresh frame for `node`, with no edge tried yet.
    pub fn new(node: usize) -> (r: NodeAndIndex)
        ensures
            r.node == node,
            r.index == 0,
    {
        NodeAndIndex { node, index: 0 }
    }

    /// The node this frame stands on.
    pub fn get_node(&self) -> (r: usize)
        ensures
            r == self.node,
    {
        self.node
    }

    /// Yields a fresh frame for the next untried edge target of this frame's
    /// node, advancing the cursor, or nothing when the edges are exhausted.
    /// Reading the edges of a node whose edge set was never extracted is a
    /// caller error and is ruled out by the precondition.
    pub fn next(&mut self, nodes: &Vec<PermutationNode>) -> (r: Option<NodeAndIndex>)
        requires
            old(self).node < nodes@.len(),
            nodes@[old(self).node as int]@.edges is Some,
        ensures
            final(self).node == old(self).node,
            ({
                let edges = nodes@[old(self).node as int]@.edges.unwrap();
                if old(self).index < edges.len() {
                    &&& r matches Some(frame) && frame.node == edges[old(self).index as int]
                        && frame.index == 0
                    &&& final(self).index == old(self).index + 1
                } else {
                    &&& r is None
                    &&& final(self).index == old(self).index
                }
            }),
    {
        let valid_permutations = nodes[self.node].get_valid_permutations();
        if self.index < valid_permutations.len() {
            let next_node = valid_permutations[self.index];
            self.index = self.index + 1;
            Some(NodeAndIndex::new(next_node))
        } else {
            None
        }
    }
}

impl PartialEq for NodeAndIndex {
    /// Two frames are interchangeable when they stand on the same node,
    /// whatever their cursors.
    fn eq(&self, other: &Self) -> (r: bool) {
        self.node == other.node
    }
}

impl vstd::std_specs::cmp::PartialEqSpecImpl for NodeAndIndex {
    open spec fn obeys_eq_spec() -> bool {
        true
    }

    open spec fn eq_spec(&self, other: &NodeAndIndex) -> bool {
        self.node == other.node
    }
}

} // verus!

pub mod node_and_index;

use vstd::prelude::*;

use crate::permutation_graph::node_stack::node_and_index::NodeAndIndex;
use crate::permutation_graph::permutation_node::{views_of, NodeView, PermutationNode};
use crate::permutation_graph::utility::{are_unique, fact, factorial, pairwise_distinct};
use vstd::std_specs::cmp::PartialEqSpec;

verus! {

/// What one advance of the search reports: the top frame's edges were
/// exhausted, a new frame was pushed, or the stack stands at full depth and
/// holds a candidate half-method chain.
pub enum PushStatus {
    End,
    Next,
    HalfMethod(NodeChain),
}

/// A candidate chain at full depth: its nodes listed when they are pairwise
/// distinct, or the bare fact that a node repeats.
pub enum NodeChain {
    Unique(Vec<usize>),
    Duplicates,
}

/// The edge list of node `id`, or the empty sequence where the node does not
/// exist or its edges were never extracted.
pub open spec fn edges_of(views: Seq<NodeView>, id: usize) -> Seq<usize> {
    if id < views.len() && views[id as int].edges is Some {
        views[id as int].edges.unwrap()
    } else {
        Seq::empty()
    }
}

/// Every edge of every node points inside the node list.
pub open spec fn nodes_linked(views: Seq<NodeView>) -> bool {
    forall|id: usize, x: int|
        0 <= x < edges_of(views, id).len() ==> (#[trigger] edges_of(views, id)[x]) < views.len()
}

/// The nodes a stack of frames walks through, in stack order.
pub open spec fn chain_of(stack: Seq<NodeAndIndex>) -> Seq<usize> {
    stack.map_values(|frame: NodeAndIndex| frame.node)
}

/// Every frame of the stack stands on a node of the list.
pub open spec fn stack_in_bounds(stack: Seq<NodeAndIndex>, views: Seq<NodeView>) -> bool {
    forall|k: int| 0 <= k < stack.len() ==> (#[trigger] stack[k]).node < views.len()
}

/// A full-depth chain is reported exactly when its nodes are pairwise
/// distinct.
pub open spec fn emit_check(chain: Seq<usize>) -> Seq<Seq<usize>> {
    if chain.no_duplicates() {
        seq![chain]
    } else {
        Seq::empty()
    }
}

/// The chains of length `target` that depth-first search reports when it
/// extends `chain` by the edges of its last node from cursor `c` on, in edge
/// order, each chain reported only if duplicate-free.
pub open spec fn dfs_from(views: Seq<NodeView>, chain: Seq<usize>, c: int, target: nat) -> Seq<
    Seq<usize>,
>
    decreases target - chain.len(), edges_of(views, chain.last()).len() - c,
{
    if chain.len() == 0 || chain.len() >= target || c < 0 || c >= edges_of(
        views,
        chain.last(),
    ).len() {
        Seq::empty()
    } else {
        let child = chain.push(edges_of(views, chain.last())[c]);
        (if child.len() >= target {
            emit_check(child)
        } else {
            dfs_from(views, child, 0, target)
        }) + dfs_from(views, chain, c + 1, target)
    }
}

/// All reports of the depth-first search rooted at `chain`.
pub open spec fn dfs(views: Seq<NodeView>, chain: Seq<usize>, target: nat) -> Seq<Seq<usize>> {
    if chain.len() >= target {
        emit_check(chain)
    } else {
        dfs_from(views, chain, 0, target)
    }
}

/// What the search still has to report from a given stack: the work of the
/// top frame first, then the untried edges of each frame below it.
pub open spec fn remaining(views: Seq<NodeView>, stack: Seq<NodeAndIndex>, target: nat) -> Seq<
    Seq<usize>,
>
    decreases stack.len(),
{
    if stack.len() == 0 {
        Seq::empty()
    } else {
        let chain = chain_of(stack);
        (if chain.len() >= target {
            emit_check(chain)
        } else {
            dfs_from(views, chain, stack.last().index as int, target)
        }) + remaining(views, stack.drop_last(), target)
    }
}

/// The number of search-tree nodes still to visit below `chain` when its
/// edges from cursor `c` on are unexplored; the machine's termination
/// measure.
pub open spec fn tree_size_from(views: Seq<NodeView>, chain: Seq<usize>, c: int, target: nat) -> nat
    decreases target - chain.len(), edges_of(views, chain.last()).len() - c,
{
    if chain.len() == 0 || chain.len() >= target || c < 0 || c >= edges_of(
        views,
        chain.last(),
    ).len() {
        0
    } else {
        let child = chain.push(edges_of(views, chain.last())[c]);
        (if child.len() >= target {
            1nat
        } else {
            1 + tree_size_from(views, child, 0, target)
        }) + tree_size_from(views, chain, c + 1, target)
    }
}

/// The total unexplored work of a stack: each frame's unexplored subtrees.
pub open spec fn stack_weight(views: Seq<NodeView>, stack: Seq<NodeAndIndex>, target: nat) -> nat
    decreases stack.len(),
{
    if stack.len() == 0 {
        0
    } else {
        let chain = chain_of(stack);
        (if chain.len() >= target {
            0nat
        } else {
            tree_size_from(views, chain, stack.last().index as int, target)
        }) + stack_weight(views, stack.drop_last(), target)
    }
}

/// Pushing a frame for the top's next untried edge neither adds nor drops
/// reports, and consumes exactly one unit of unexplored work.
pub proof fn lemma_step_push(views: Seq<NodeView>, stack: Seq<NodeAndIndex>, target: nat)
    requires
        stack.len() > 0,
        chain_of(stack).len() < target,
        stack.last().index < usize::MAX,
        0 <= stack.last().index < edges_of(views, stack.last().node).len(),
    ensures
        ({
            let top = stack.last();
            let e = edges_of(views, top.node)[top.index as int];
            let stack2 = stack.update(
                stack.len() - 1,
                NodeAndIndex { node: top.node, index: (top.index + 1) as usize },
            ).push(NodeAndIndex { node: e, index: 0 });
            &&& remaining(views, stack2, target) == remaining(views, stack, target)
            &&& stack_weight(views, stack2, target) + 1 == stack_weight(views, stack, target)
        }),
{
    let top = stack.last();
    let c = top.index as int;
    let chain = chain_of(stack);
    let e = edges_of(views, top.node)[c];
    let upd = stack.update(
        stack.len() - 1,
        NodeAndIndex { node: top.node, index: (top.index + 1) as usize },
    );
    let stack2 = upd.push(NodeAndIndex { node: e, index: 0 });
    let lower = stack.drop_last();
    assert(chain.len() == stack.len());
    assert(chain.last() == top.node);
    assert(chain_of(upd) =~= chain);
    assert(chain_of(stack2) =~= chain.push(e));
    assert(upd.drop_last() =~= lower);
    assert(stack2.drop_last() =~= upd);
    let child = chain.push(e);
    assert(child.len() == chain.len() + 1);
    let head: Seq<Seq<usize>> = if child.len() >= target {
        emit_check(child)
    } else {
        dfs_from(views, child, 0, target)
    };
    let whead: nat = if child.len() >= target {
        1nat
    } else {
        1 + tree_size_from(views, child, 0, target)
    };
    assert(dfs_from(views, chain, c, target) == head + dfs_from(views, chain, c + 1, target));
    assert(tree_size_from(views, chain, c, target) == whead + tree_size_from(
        views,
        chain,
        c + 1,
        target,
    ));
    assert(remaining(views, stack, target) == dfs_from(views, chain, c, target) + remaining(
        views,
        lower,
        target,
    ));
    assert(upd.len() == stack.len());
    assert(upd.last() == NodeAndIndex { node: top.node, index: (top.index + 1) as usize });
    assert((top.index + 1) as usize as int == c + 1);
    assert(remaining(views, upd, target) == dfs_from(views, chain, c + 1, target) + remaining(
        views,
        lower,
        target,
    ));
    assert(stack2.last() == NodeAndIndex { node: e, index: 0 });
    assert(remaining(views, stack2, target) == (if child.len() >= target {
        emit_check(child)
    } else {
        dfs_from(views, child, 0, target)
    }) + remaining(views, upd, target));
    assert(remaining(views, stack2, target) =~= remaining(views, stack, target));
    assert(stack_weight(views, stack, target) == tree_size_from(views, chain, c, target)
        + stack_weight(views, lower, target));
    assert(stack_weight(views, upd, target) == tree_size_from(views, chain, c + 1, target)
        + stack_weight(views, lower, target));
    assert(stack_weight(views, stack2, target) == (if child.len() >= target {
        0nat
    } else {
        tree_size_from(views, child, 0, target)
    }) + stack_weight(views, upd, target));
}

/// Discarding a frame whose edges are exhausted changes neither the reports
/// still owed nor the unexplored work.
pub proof fn lemma_step_end(views: Seq<NodeView>, stack: Seq<NodeAndIndex>, target: nat)
    requires
        stack.len() > 0,
        chain_of(stack).len() < target,
        stack.last().index >= edges_of(views, stack.last().node).len(),
    ensures
        remaining(views, stack, target) == remaining(views, stack.drop_last(), target),
        stack_weight(views, stack, target) == stack_weight(views, stack.drop_last(), target),
{
    let chain = chain_of(stack);
    assert(chain.len() == stack.len());
    assert(chain.last() == stack.last().node);
    assert(dfs_from(views, chain, stack.last().index as int, target) == Seq::<Seq<usize>>::empty());
    assert(tree_size_from(views, chain, stack.last().index as int, target) == 0);
    assert(remaining(views, stack, target) =~= remaining(views, stack.drop_last(), target));
}

/// At full depth the stack owes exactly the current chain's report, and the
/// frame itself carries no unexplored work.
pub proof fn lemma_step_emit(views: Seq<NodeView>, stack: Seq<NodeAndIndex>, target: nat)
    requires
        stack.len() > 0,
        chain_of(stack).len() >= target,
    ensures
        remaining(views, stack, target) == emit_check(chain_of(stack)) + remaining(
            views,
            stack.drop_last(),
            target,
        ),
        stack_weight(views, stack, target) == stack_weight(views, stack.drop_last(), target),
{
    assert(chain_of(stack).len() == stack.len());
}

/// Every chain that `dfs` reports has length `target` and starts where
/// `chain` starts.
pub proof fn lemma_dfs_chain_shape(views: Seq<NodeView>, chain: Seq<usize>, c: int, target: nat)
    requires
        0 < chain.len() <= target,
    ensures
        forall|x: int|
            0 <= x < dfs_from(views, chain, c, target).len() ==> {
                let m = #[trigger] dfs_from(views, chain, c, target)[x];
                m.len() == target && m[0] == chain[0] && m.no_duplicates()
            },
    decreases target - chain.len(), edges_of(views, chain.last()).len() - c,
{
    if chain.len() >= target || c < 0 || c >= edges_of(views, chain.last()).len() {
    } else {
        let child = chain.push(edges_of(views, chain.last())[c]);
        let head: Seq<Seq<usize>> = if child.len() >= target {
            emit_check(child)
        } else {
            dfs_from(views, child, 0, target)
        };
        if child.len() >= target {
            assert(child.len() == target);
            assert(child[0] == chain[0]);
        } else {
            lemma_dfs_chain_shape(views, child, 0, target);
            assert(child[0] == chain[0]);
        }
        lemma_dfs_chain_shape(views, chain, c + 1, target);
        let tail = dfs_from(views, chain, c + 1, target);
        let whole = dfs_from(views, chain, c, target);
        assert forall|x: int| 0 <= x < whole.len() implies {
            let m = #[trigger] whole[x];
            m.len() == target && m[0] == chain[0] && m.no_duplicates()
        } by {
            if x < head.len() {
                assert(whole[x] == head[x]);
            } else {
                assert(whole[x] == tail[x - head.len()]);
            }
        }
    }
}

/// On node indices, pairwise distinctness under `==` is exactly the absence
/// of duplicates.
pub proof fn lemma_distinct_ids(s: Seq<usize>)
    ensures
        pairwise_distinct(s) == s.no_duplicates(),
{
    if pairwise_distinct(s) {
        assert forall|i: int, j: int|
            0 <= i < s.len() && 0 <= j < s.len() && i != j implies s[i] != s[j] by {
            assert(!s[i].eq_spec(&s[j]));
        }
    }
    if s.no_duplicates() {
        assert forall|x: int, y: int|
            0 <= x < s.len() && 0 <= y < s.len() && x != y implies !(#[trigger] s[x].eq_spec(
            &s[y],
        )) by {
            assert(s[x] != s[y]);
        }
    }
}

/// The depth-first traversal state: a stack of frames, capped at the
/// half-method length for the bell count at hand.
pub struct NodeStack {
    pub stack_max: usize,
    pub node_stack: Vec<NodeAndIndex>,
}

impl NodeStack {
    /// A stack holding one frame for the starting node. The depth cap is half
    /// of the factorial of the row length.
    pub fn new(nodes: &Vec<PermutationNode>, first_node: usize) -> (r: NodeStack)
        requires
            first_node < nodes@.len(),
            fact(nodes@[first_node as int]@.row.len()) <= usize::MAX,
        ensures
            r.stack_max == fact(nodes@[first_node as int]@.row.len()) / 2,
            r.node_stack@ == seq![NodeAndIndex { node: first_node, index: 0 }],
    {
        let row_len = nodes[first_node].get_permutation().len();
        let stack_max = factorial(row_len) / 2;
        proof {
            if row_len == 0 {
                assert(fact(0) == 1);
            }
        }
        NodeStack { stack_max, node_stack: Self::initialise_node_stack(first_node, stack_max) }
    }

    /// The initial frame vector, sized for the depth cap.
    fn initialise_node_stack(first_node: usize, stack_max: usize) -> (r: Vec<NodeAndIndex>)
        ensures
            r@ == seq![NodeAndIndex { node: first_node, index: 0 }],
    {
        let mut node_stack: Vec<NodeAndIndex> = Vec::with_capacity(stack_max);
        node_stack.push(NodeAndIndex::new(first_node));
        proof {
            assert(node_stack@ =~= seq![NodeAndIndex { node: first_node, index: 0 }]);
        }
        node_stack
    }

    /// Discards the top frame; on an empty stack, does nothing.
    pub fn pop(&mut self)
        ensures
            final(self).stack_max == old(self).stack_max,
            old(self).node_stack@.len() > 0 ==> final(self).node_stack@ == old(
                self,
            ).node_stack@.drop_last(),
            old(self).node_stack@.len() == 0 ==> final(self).node_stack@ == old(
                self,
            ).node_stack@,
    {
        let _ = self.node_stack.pop();
        proof {
            if old(self).node_stack@.len() > 0 {
                assert(self.node_stack@ =~= old(self).node_stack@.drop_last());
            }
        }
    }

    /// One advance of the search. At full depth, reports the current chain;
    /// otherwise pushes a frame for the top's next untried edge, or reports
    /// that the top is exhausted. The caller keeps the stack nonempty and has
    /// extracted the edges of the node the top frame stands on.
    pub fn push_next(&mut self, nodes: &Vec<PermutationNode>) -> (r: PushStatus)
        requires
            old(self).node_stack@.len() > 0,
            stack_in_bounds(old(self).node_stack@, views_of(nodes@)),
            nodes_linked(views_of(nodes@)),
            old(self).node_stack@.len() != old(self).stack_max ==> nodes@[old(
                self,
            ).node_stack@.last().node as int]@.edges is Some,
        ensures
            final(self).stack_max == old(self).stack_max,
            stack_in_bounds(final(self).node_stack@, views_of(nodes@)),
            ({
                let stack = old(self).node_stack@;
                let views = views_of(nodes@);
                let top = stack.last();
                if stack.len() == old(self).stack_max {
                    &&& final(self).node_stack@ == stack
                    &&& r matches PushStatus::HalfMethod(nc)
                    &&& chain_of(stack).no_duplicates() ==> (nc matches NodeChain::Unique(v)
                        && v@ == chain_of(stack))
                    &&& !chain_of(stack).no_duplicates() ==> (nc is Duplicates)
                } else {
                    let edges = edges_of(views, top.node);
                    if top.index < edges.len() {
                        &&& r is Next
                        &&& final(self).node_stack@ == stack.update(
                            stack.len() - 1,
                            NodeAndIndex { node: top.node, index: (top.index + 1) as usize },
                        ).push(NodeAndIndex { node: edges[top.index as int], index: 0 })
                    } else {
                        &&& r is End
                        &&& final(self).node_stack@ == stack
                    }
                }
            }),
    {
        if self.node_stack.len() == self.stack_max {
            return PushStatus::HalfMethod(self.get_unique_node_chain());
        }
        let last_index = self.node_stack.len() - 1;
        let ghost views = views_of(nodes@);
        proof {
            assert(views[self.node_stack@.last().node as int] == nodes@[self.node_stack@.last().node as int]@);
        }
        let next_frame = self.node_stack[last_index].next(nodes);
        match next_frame {
            Some(frame) => {
                proof {
                    let e = edges_of(views, old(self).node_stack@.last().node);
                    assert(0 <= old(self).node_stack@.last().index < e.len());
                    assert(e[old(self).node_stack@.last().index as int] < views.len());
                }
                self.node_stack.push(frame);
                PushStatus::Next
            },
            None => {
                proof {
                    assert(self.node_stack@ =~= old(self).node_stack@);
                }
                PushStatus::End
            },
        }
    }

    /// Whether the search has exhausted every frame.
    pub fn is_empty(&self) -> (r: bool)
        ensures
            r == (self.node_stack@.len() == 0),
    {
        self.node_stack.is_empty()
    }

    /// The chain the stack currently walks, reported as unique when no node
    /// repeats and as duplicate-bearing otherwise.
    pub fn get_unique_node_chain(&self) -> (r: NodeChain)
        ensures
            chain_of(self.node_stack@).no_duplicates() ==> (r matches NodeChain::Unique(v) && v@
                == chain_of(self.node_stack@)),
            !chain_of(self.node_stack@).no_duplicates() ==> (r is Duplicates),
    {
        let mut chain: Vec<usize> = Vec::new();
        let mut k: usize = 0;
        while k < self.node_stack.len()
            invariant
                k <= self.node_stack@.len(),
                chain@.len() == k,
                forall|x: int| 0 <= x < k ==> chain@[x] == chain_of(self.node_stack@)[x],
            decreases self.node_stack@.len() - k,
        {
            chain.push(self.node_stack[k].get_node());
            k = k + 1;
        }
        proof {
            assert(chain@ =~= chain_of(self.node_stack@));
        }
        let unique = are_unique(&chain);
        proof {
            lemma_distinct_ids(chain@);
        }
        if unique {
            NodeChain::Unique(chain)
        } else {
            NodeChain::Duplicates
        }
    }
}

} // verus!

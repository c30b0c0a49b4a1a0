pub mod change_validation;

use vstd::prelude::*;

use change_validation::{is_valid_change, is_valid_change_spec};

verus! {

/// A row of bells: an arrangement of the symbols `1..=n`.
pub open spec fn row_is_identity(row: Seq<u8>) -> bool {
    forall|k: int| 0 <= k < row.len() ==> row[k] == k + 1
}

/// The mathematical content of one node: its row, whether that row is rounds,
/// and its outgoing edges once they have been extracted.
#[verifier::ext_equal]
pub ghost struct NodeView {
    pub row: Seq<u8>,
    pub is_rounds: bool,
    pub edges: Option<Seq<usize>>,
}

/// Candidate `b` is a legal edge target of `a`: it is not rounds, carries a
/// different row, and is one valid change away.
pub open spec fn edge_ok(a: NodeView, b: NodeView) -> bool {
    &&& !b.is_rounds
    &&& b.row != a.row
    &&& is_valid_change_spec(a.row, b.row)
}

/// The edge set of a node whose view is `me`, drawn from the first `m`
/// candidates of `others`, in candidate order.
pub open spec fn valid_edges_upto(me: NodeView, others: Seq<NodeView>, m: int) -> Seq<usize>
    decreases m,
{
    if m <= 0 {
        Seq::empty()
    } else {
        valid_edges_upto(me, others, m - 1) + if edge_ok(me, others[m - 1]) {
            seq![(m - 1) as usize]
        } else {
            Seq::empty()
        }
    }
}

/// Membership in an extracted edge set: exactly the earlier candidates that
/// pass `edge_ok`, kept in candidate order.
pub proof fn lemma_valid_edges_membership(me: NodeView, others: Seq<NodeView>, m: int)
    requires
        m <= usize::MAX,
    ensures
        forall|x: int|
            0 <= x < valid_edges_upto(me, others, m).len() ==> {
                let e = #[trigger] valid_edges_upto(me, others, m)[x];
                0 <= e < m && edge_ok(me, others[e as int])
            },
    decreases m,
{
    if m > 0 {
        lemma_valid_edges_membership(me, others, m - 1);
        let prev = valid_edges_upto(me, others, m - 1);
        let cur = valid_edges_upto(me, others, m);
        assert forall|x: int|
            0 <= x < cur.len() implies {
            let e = #[trigger] cur[x];
            0 <= e < m && edge_ok(me, others[e as int])
        } by {
            if edge_ok(me, others[m - 1]) {
                if x < prev.len() {
                    assert(cur[x] == prev[x]);
                } else {
                    assert(cur[x] == (m - 1) as usize);
                }
            } else {
                assert(cur =~= prev);
                assert(cur[x] == prev[x]);
            }
        }
    }
}

/// An edge set drawn from `m` candidates holds at most `m` edges.
pub proof fn lemma_valid_edges_len(me: NodeView, others: Seq<NodeView>, m: int)
    requires
        0 <= m,
    ensures
        valid_edges_upto(me, others, m).len() <= m,
    decreases m,
{
    if m > 0 {
        lemma_valid_edges_len(me, others, m - 1);
    }
}

/// One row of the permutation graph together with its lazily extracted,
/// write-once edge set, stored as indices into the graph's node list.
#[derive(Debug)]
pub struct PermutationNode {
    pub is_rounds: bool,
    pub permutation: Vec<u8>,
    pub valid_permutations: Option<Vec<usize>>,
}

impl View for PermutationNode {
    type V = NodeView;

    open spec fn view(&self) -> NodeView {
        NodeView {
            row: self.permutation@,
            is_rounds: self.is_rounds,
            edges: match self.valid_permutations {
                Some(edges) => Some(edges@),
                None => None,
            },
        }
    }
}

/// The views of a whole node list.
pub open spec fn views_of(nodes: Seq<PermutationNode>) -> Seq<NodeView> {
    nodes.map_values(|node: PermutationNode| node@)
}

impl PermutationNode {
    /// Wraps one row; the rounds flag records whether the row is the ascending
    /// identity arrangement. The edge set starts unset.
    pub fn new(permutation: Vec<u8>) -> (node: PermutationNode)
        requires
            permutation@.len() <= u8::MAX,
        ensures
            node@.row == permutation@,
            node@.is_rounds == row_is_identity(permutation@),
            node@.edges is None,
    {
        let mut is_rounds = true;
        let mut i: usize = 0;
        while i < permutation.len()
            invariant
                permutation@.len() <= u8::MAX,
                i <= permutation@.len(),
                is_rounds == (forall|k: int| 0 <= k < i ==> permutation@[k] == k + 1),
            decreases permutation@.len() - i,
        {
            if permutation[i] != (i as u8) + 1 {
                is_rounds = false;
                assert(!(permutation@[i as int] == i + 1));
            }
            i = i + 1;
        }
        PermutationNode { is_rounds, permutation, valid_permutations: None }
    }

    /// Whether this node's row is rounds.
    pub fn is_rounds(&self) -> (r: bool)
        ensures
            r == self@.is_rounds,
    {
        self.is_rounds
    }

    /// The row this node stands for.
    pub fn get_permutation(&self) -> (r: &Vec<u8>)
        ensures
            r@ == self@.row,
    {
        &self.permutation
    }

    /// Stores the extracted edge set; a second write is a caller error and is
    /// ruled out by the precondition.
    pub fn extract_valid_permutations(&mut self, valid: Vec<usize>)
        requires
            old(self)@.edges is None,
        ensures
            final(self)@.row == old(self)@.row,
            final(self)@.is_rounds == old(self)@.is_rounds,
            final(self)@.edges == Some(valid@),
    {
        self.valid_permutations = Some(valid);
    }

    /// Collects, in candidate order, the indices of every candidate reachable
    /// from this node by one valid change, skipping rounds and this node's own
    /// row.
    pub fn collect_valid_permutations(&self, permutations: &Vec<PermutationNode>) -> (r: Vec<
        usize,
    >)
        requires
            forall|j: int|
                0 <= j < permutations@.len() ==> (#[trigger] permutations@[j])@.row.len()
                    == self@.row.len(),
        ensures
            r@ == valid_edges_upto(self@, views_of(permutations@), permutations@.len() as int),
    {
        let mut result: Vec<usize> = Vec::new();
        let mut j: usize = 0;
        while j < permutations.len()
            invariant
                forall|k: int|
                    0 <= k < permutations@.len() ==> (#[trigger] permutations@[k])@.row.len()
                        == self@.row.len(),
                j <= permutations@.len(),
                result@ == valid_edges_upto(self@, views_of(permutations@), j as int),
            decreases permutations@.len() - j,
        {
            if self.is_valid_permutation(&permutations[j]) {
                result.push(j);
            }
            proof {
                assert(views_of(permutations@)[j as int] == permutations@[j as int]@);
            }
            j = j + 1;
        }
        result
    }

    /// Whether `permutation` qualifies as an edge target of this node.
    pub fn is_valid_permutation(&self, permutation: &PermutationNode) -> (r: bool)
        requires
            permutation@.row.len() == self@.row.len(),
        ensures
            r == edge_ok(self@, permutation@),
    {
        if permutation.is_rounds() {
            return false;
        }
        if rows_equal(&self.permutation, &permutation.permutation) {
            return false;
        }
        is_valid_change(self.permutation.as_slice(), permutation.permutation.as_slice())
    }

    /// The extracted edge set; reading before extraction is a caller error and
    /// is ruled out by the precondition.
    pub fn get_valid_permutations(&self) -> (r: &Vec<usize>)
        requires
            self@.edges is Some,
        ensures
            Some(r@) == self@.edges,
    {
        match &self.valid_permutations {
            Some(edges) => edges,
            None => unreached(),
        }
    }
}

/// Element-for-element equality of two rows.
pub fn rows_equal(a: &Vec<u8>, b: &Vec<u8>) -> (r: bool)
    ensures
        r == (a@ == b@),
{
    if a.len() != b.len() {
        return false;
    }
    let mut i: usize = 0;
    while i < a.len()
        invariant
            a@.len() == b@.len(),
            i <= a@.len(),
            forall|k: int| 0 <= k < i ==> a@[k] == b@[k],
        decreases a@.len() - i,
    {
        if a[i] != b[i] {
            return false;
        }
        i = i + 1;
    }
    proof {
        assert(a@ =~= b@);
    }
    true
}

impl PartialEq for PermutationNode {
    /// Two nodes are interchangeable exactly when they carry the same row.
    fn eq(&self, other: &Self) -> (r: bool) {
        rows_equal(&self.permutation, &other.permutation)
    }
}

impl vstd::std_specs::cmp::PartialEqSpecImpl for PermutationNode {
    open spec fn obeys_eq_spec() -> bool {
        true
    }

    open spec fn eq_spec(&self, other: &PermutationNode) -> bool {
        self@.row == other@.row
    }
}

} // verus!

pub mod method_iterator;
pub mod node_stack;
pub mod permutation_node;
pub mod utility;

use vstd::prelude::*;

use method_iterator::{
    lemma_pair_stream_shape, new_stream, one_method, pair_stream, MethodIterator,
};
use node_stack::node_and_index::NodeAndIndex;
use node_stack::{
    chain_of, dfs, edges_of, emit_check, lemma_dfs_chain_shape, lemma_step_emit, lemma_step_end,
    lemma_step_push, nodes_linked, remaining, stack_in_bounds, stack_weight, NodeChain, NodeStack,
    PushStatus,
};
use permutation_node::change_validation::{
    is_valid_change_spec, value_in_window, window_hi, window_lo,
};
use permutation_node::{
    edge_ok, lemma_valid_edges_len, lemma_valid_edges_membership, row_is_identity,
    valid_edges_upto, views_of, NodeView, PermutationNode,
};
use utility::{fact, lemma_fact_monotone};

verus! {

/// The rows that the permutation generator yields for `n` bells, in its own
/// fixed order. The result depends on `n` alone.
pub uninterp spec fn generated_rows(n: int) -> Seq<Seq<u8>>;

/// A row of `n` bells: `n` pairwise distinct symbols drawn from `1..=n`.
pub open spec fn row_is_ordering(row: Seq<u8>, n: nat) -> bool {
    &&& row.len() == n
    &&& row.no_duplicates()
    &&& forall|k: int| 0 <= k < row.len() ==> 1 <= #[trigger] row[k] <= n
}

/// Relies on `permutations::Permutations::new(n)`, its iterator, and
/// `permutations::Permutation::permute`: all n! orderings of n elements in a
/// fixed lexicographic order, the identity ordering first, each applied here to
/// the base row `[1, …, n]`, so that every row rearranges those n distinct
/// symbols. The crate documents that iteration is limited to n of at most 20
/// on 64-bit machines.
#[verifier::external_body]
fn generate_all_rows(n: usize) -> (rows: Vec<Vec<u8>>)
    requires
        1 <= n <= 20,
        fact(n as nat) <= usize::MAX,
    ensures
        rows@.map_values(|r: Vec<u8>| r@) == generated_rows(n as int),
        rows@.len() == fact(n as nat),
        forall|i: int| 0 <= i < rows@.len() ==> row_is_ordering((#[trigger] rows@[i])@, n as nat),
        forall|i: int, j: int|
            0 <= i < rows@.len() && 0 <= j < rows@.len() && i != j ==> rows@[i]@ != rows@[j]@,
        row_is_identity(rows@[0]@),
{
    let base: Vec<u8> = (1..=(n as u8)).collect();
    permutations::Permutations::new(n).iter().map(|perm| perm.permute(&base)).collect()
}

/// The common row length of a graph's nodes.
pub open spec fn graph_row_len(views: Seq<NodeView>) -> nat {
    if views.len() == 0 {
        0
    } else {
        views[0].row.len()
    }
}

/// A well-formed permutation graph: rows of one common length, pairwise
/// distinct, the rounds flag true exactly of the ascending row, rounds first,
/// and every edge set extracted against the full node list.
pub open spec fn graph_wf(views: Seq<NodeView>) -> bool {
    &&& forall|i: int|
        0 <= i < views.len() ==> (#[trigger] views[i]).row.len() == graph_row_len(views)
    &&& forall|i: int, j: int|
        0 <= i < views.len() && 0 <= j < views.len() && i != j ==> views[i].row != views[j].row
    &&& forall|i: int|
        0 <= i < views.len() ==> (#[trigger] views[i]).is_rounds == row_is_identity(views[i].row)
    &&& forall|i: int|
        0 <= i < views.len() ==> (#[trigger] views[i]).edges == Some(
            valid_edges_upto(views[i], views, views.len() as int),
        )
    &&& views.len() >= 1 ==> views[0].is_rounds
    &&& views.len() > 1 ==> graph_row_len(views) > 1
    &&& views.len() >= 1 ==> fact(graph_row_len(views)) <= usize::MAX
    &&& views.len() <= usize::MAX
}

/// Every row of the graph is an arrangement of the `n` distinct symbols.
pub open spec fn graph_rows_are_orderings(views: Seq<NodeView>, n: nat) -> bool {
    forall|i: int| 0 <= i < views.len() ==> row_is_ordering((#[trigger] views[i]).row, n)
}

/// The graph's nodes carry exactly the rows the generator yields for `n`
/// bells, in the generator's order.
pub open spec fn built_from(views: Seq<NodeView>, n: nat) -> bool {
    if n == 0 {
        views.len() == 0
    } else {
        &&& views.len() == generated_rows(n as int).len()
        &&& forall|i: int|
            0 <= i < views.len() ==> (#[trigger] views[i]).row == generated_rows(n as int)[i]
    }
}

/// Edge extraction reads only rows and rounds flags, so any two node lists
/// that agree on those yield the same edge sets.
pub proof fn lemma_valid_edges_congruence(
    me1: NodeView,
    me2: NodeView,
    vs1: Seq<NodeView>,
    vs2: Seq<NodeView>,
    m: int,
)
    requires
        me1.row == me2.row,
        vs1.len() == vs2.len(),
        forall|i: int|
            0 <= i < vs1.len() ==> (#[trigger] vs1[i]).row == vs2[i].row && vs1[i].is_rounds
                == vs2[i].is_rounds,
        m <= vs1.len(),
    ensures
        valid_edges_upto(me1, vs1, m) == valid_edges_upto(me2, vs2, m),
    decreases m,
{
    if m > 0 {
        lemma_valid_edges_congruence(me1, me2, vs1, vs2, m - 1);
        assert(edge_ok(me1, vs1[m - 1]) == edge_ok(me2, vs2[m - 1]));
    }
}

/// In a well-formed graph every edge points inside the node list.
pub proof fn lemma_graph_wf_linked(views: Seq<NodeView>)
    requires
        graph_wf(views),
    ensures
        nodes_linked(views),
{
    assert forall|id: usize, x: int|
        0 <= x < edges_of(views, id).len() implies (#[trigger] edges_of(views, id)[x])
        < views.len() by {
        if id < views.len() && views[id as int].edges is Some {
            lemma_valid_edges_membership(views[id as int], views, views.len() as int);
        }
    }
}

/// The depth a half-method search runs to: half of the number of rows.
pub open spec fn search_target(views: Seq<NodeView>) -> nat {
    fact(graph_row_len(views)) / 2
}

/// The half-methods one search worker reports for the starting edge
/// `first_change`, each prefixed with the rounds node.
pub open spec fn node_half_methods_spec(
    views: Seq<NodeView>,
    first_change: usize,
    rounds_node: usize,
) -> Seq<Seq<usize>> {
    dfs(views, seq![first_change], search_target(views)).map_values(
        |c: Seq<usize>| seq![rounds_node] + c,
    )
}

/// The half-methods of the whole graph: the single-row chain for a one-node
/// graph, otherwise every worker's reports over the first `m` starting edges
/// of rounds, concatenated in edge order.
pub open spec fn half_methods_upto(views: Seq<NodeView>, m: int) -> Seq<Seq<usize>>
    decreases m,
{
    if m <= 0 {
        Seq::empty()
    } else {
        half_methods_upto(views, m - 1) + node_half_methods_spec(
            views,
            edges_of(views, 0)[m - 1],
            0,
        )
    }
}

/// Every half-method of the graph, in the order the sequential collection
/// reports them.
pub open spec fn graph_half_methods(views: Seq<NodeView>) -> Seq<Seq<usize>> {
    if views.len() == 1 {
        seq![seq![0usize]]
    } else {
        half_methods_upto(views, edges_of(views, 0).len() as int)
    }
}

/// Whether the half-methods of a graph fit one of the three iterator shapes:
/// an empty graph, two or more half-methods to pair, or exactly one of at
/// most two rows. Anything else is a fatal condition and yields no iterator.
pub open spec fn graph_methods_ok(views: Seq<NodeView>) -> bool {
    ||| views.len() == 0
    ||| graph_half_methods(views).len() >= 2
    ||| (graph_half_methods(views).len() == 1 && 1 <= graph_half_methods(views)[0].len() <= 2)
}

/// The full methods of a graph, in the order the engine yields them.
pub open spec fn graph_method_stream(views: Seq<NodeView>) -> Seq<Seq<usize>> {
    if views.len() == 0 {
        seq![Seq::<usize>::empty()]
    } else {
        new_stream(graph_half_methods(views))
    }
}

/// Every half-method either of the degenerate one-node graph or reported by
/// a search carries at least its leading rounds node.
pub proof fn lemma_half_methods_nonempty(views: Seq<NodeView>, m: int)
    ensures
        forall|x: int|
            0 <= x < half_methods_upto(views, m).len() ==> (#[trigger] half_methods_upto(
                views,
                m,
            )[x]).len() > 0,
    decreases m,
{
    if m > 0 {
        lemma_half_methods_nonempty(views, m - 1);
        let prev = half_methods_upto(views, m - 1);
        let tail = node_half_methods_spec(views, edges_of(views, 0)[m - 1], 0);
        let cur = half_methods_upto(views, m);
        assert forall|x: int| 0 <= x < cur.len() implies (#[trigger] cur[x]).len() > 0 by {
            if x < prev.len() {
                assert(cur[x] == prev[x]);
            } else {
                assert(cur[x] == tail[x - prev.len()]);
                let chains = dfs(views, seq![edges_of(views, 0)[m - 1]], search_target(views));
                assert(tail[x - prev.len()] == seq![0usize] + chains[x - prev.len()]);
            }
        }
    }
}

/// In a graph of two or more nodes, every collected half-method has the full
/// search depth plus the leading rounds node, starts at rounds, and steps
/// first to a node other than rounds.
pub proof fn lemma_graph_half_methods_shape(views: Seq<NodeView>, m: int)
    requires
        graph_wf(views),
        views.len() >= 2,
        0 <= m <= edges_of(views, 0).len(),
    ensures
        forall|x: int|
            0 <= x < half_methods_upto(views, m).len() ==> {
                let hm = #[trigger] half_methods_upto(views, m)[x];
                &&& hm.len() == search_target(views) + 1
                &&& hm[0] == 0
                &&& hm.len() >= 2 ==> hm[1] != 0
            },
    decreases m,
{
    let target = search_target(views);
    assert(target >= 1) by {
        assert(graph_row_len(views) >= 2);
        assert(fact(0) == 1);
        assert(fact(1) == 1 * fact(0));
        assert(fact(2) == 2 * fact(1));
        lemma_fact_monotone(2, graph_row_len(views));
    }
    if m > 0 {
        lemma_graph_half_methods_shape(views, m - 1);
        let prev = half_methods_upto(views, m - 1);
        let e = edges_of(views, 0)[m - 1];
        let tail = node_half_methods_spec(views, e, 0);
        let cur = half_methods_upto(views, m);
        let chains = dfs(views, seq![e], target);
        lemma_valid_edges_membership(views[0], views, views.len() as int);
        assert(views[e as int].row != views[0].row);
        assert(e != 0);
        assert forall|x: int| 0 <= x < cur.len() implies {
            let hm = #[trigger] cur[x];
            &&& hm.len() == target + 1
            &&& hm[0] == 0
            &&& hm.len() >= 2 ==> hm[1] != 0
        } by {
            if x < prev.len() {
                assert(cur[x] == prev[x]);
            } else {
                let c = chains[x - prev.len()];
                assert(cur[x] == tail[x - prev.len()]);
                assert(tail[x - prev.len()] == seq![0usize] + c);
                if 1 >= target {
                    assert(chains == emit_check(seq![e]));
                    assert(seq![e].no_duplicates());
                    assert(c == seq![e]);
                } else {
                    lemma_dfs_chain_shape(views, seq![e], 0, target);
                    assert(c.len() == target && c[0] == e);
                }
                assert(cur[x].len() == target + 1);
                assert(cur[x][0] == 0);
                if target >= 1 {
                    assert(cur[x][1] == c[0]);
                    assert(c[0] == e);
                }
            }
        }
    }
}

/// Every full method of a graph of two or more nodes starts and ends at
/// rounds, has twice the half-method length less one rows, and repeats no
/// row before the final return to rounds.
pub proof fn lemma_graph_full_methods_well_formed(views: Seq<NodeView>)
    requires
        graph_wf(views),
        views.len() >= 2,
        graph_methods_ok(views),
    ensures
        forall|x: int|
            0 <= x < graph_method_stream(views).len() ==> {
                let m = #[trigger] graph_method_stream(views)[x];
                &&& m.len() == 2 * (search_target(views) + 1) - 1
                &&& m[0] == 0
                &&& m.last() == 0
                &&& m.drop_last().no_duplicates()
            },
{
    let hms = graph_half_methods(views);
    let target = search_target(views);
    lemma_graph_half_methods_shape(views, edges_of(views, 0).len() as int);
    assert(graph_row_len(views) >= 2);
    assert(fact(0) == 1);
    assert(fact(1) == 1 * fact(0));
    assert(fact(2) == 2 * fact(1));
    lemma_fact_monotone(2, graph_row_len(views));
    assert(target >= 1);
    if hms.len() >= 2 {
        lemma_pair_stream_shape(hms, 0, 1, target + 1, 0);
        assert(graph_method_stream(views) == pair_stream(hms, 0, 1));
    } else {
        let hm = hms[0];
        assert(hm.len() == target + 1);
        let m = one_method(hm);
        assert(hm.len() >= 2);
        assert(m == seq![hm[0], hm[1], hm[0]]);
        assert(graph_method_stream(views) == seq![m]);
        assert(m.len() == 3);
        assert(target + 1 == 2);
        assert(m[0] == 0 && m.last() == 0);
        let md = m.drop_last();
        assert(md.len() == 2);
        assert(md[0] == 0 && md[1] == hm[1]);
        assert(hm[1] != 0);
        assert forall|x: int, y: int|
            0 <= x < md.len() && 0 <= y < md.len() && x != y implies md[x] != md[y] by {}
        assert(md.no_duplicates());
    }
}

/// For up to two bells the engine owes its exact output: an iterator always
/// exists, and it yields precisely the one full method the bell count
/// admits — the empty method, the single row of one bell, or the two-bell
/// circuit of rounds, the one change, and rounds again.
pub proof fn lemma_small_graphs_always_yield(g: &PermutationGraph, n: nat)
    requires
        graph_wf(g@),
        built_from(g@, n),
        graph_rows_are_orderings(g@, n),
        g@.len() == if n == 0 {
            0nat
        } else {
            fact(n)
        },
        n <= 2,
    ensures
        graph_methods_ok(g@),
        n == 0 ==> graph_method_stream(g@) == seq![Seq::<usize>::empty()],
        n == 1 ==> graph_method_stream(g@) == seq![seq![0usize]],
        n == 2 ==> graph_method_stream(g@) == seq![seq![0usize, 1usize, 0usize]],
{
    let views = g@;
    assert(fact(0) == 1);
    assert(fact(1) == 1 * fact(0));
    assert(fact(2) == 2 * fact(1));
    if n == 0 {
        assert(views.len() == 0);
    } else if n == 1 {
        assert(views.len() == 1);
        let hms = graph_half_methods(views);
        assert(hms == seq![seq![0usize]]);
        assert(hms[0].len() == 1);
        assert(one_method(hms[0]) == hms[0]);
        assert(graph_method_stream(views) =~= seq![seq![0usize]]);
    } else {
        assert(views.len() == 2);
        let r0 = views[0].row;
        let r1 = views[1].row;
        assert(views[0].is_rounds);
        assert(row_is_identity(r0));
        assert(row_is_ordering(r0, 2));
        assert(r0.len() == 2);
        assert(r0[0] == 1 && r0[1] == 2);
        assert(row_is_ordering(r1, 2));
        assert(r1.len() == 2);
        assert(1 <= r1[0] <= 2 && 1 <= r1[1] <= 2);
        assert(r1[0] != r1[1]);
        if r1[0] == 1 {
            assert(r1[1] == 2);
            assert(r1 =~= r0);
            assert(false);
        }
        assert(r1[0] == 2 && r1[1] == 1);
        assert(!views[1].is_rounds) by {
            assert(!(r1[0] == 0 + 1));
        }
        assert(is_valid_change_spec(r0, r1)) by {
            assert forall|i: int| 0 <= i < r1.len() implies value_in_window(
                r0,
                i,
                #[trigger] r1[i],
            ) by {
                if i == 0 {
                    assert(window_lo(0) <= 1 < window_hi(0, 2) && r0[1] == r1[0]);
                } else {
                    assert(window_lo(1) <= 0 < window_hi(1, 2) && r0[0] == r1[1]);
                }
            }
        }
        let e0 = valid_edges_upto(views[0], views, 2);
        assert(valid_edges_upto(views[0], views, 0) == Seq::<usize>::empty());
        assert(!edge_ok(views[0], views[0]));
        assert(edge_ok(views[0], views[1]));
        assert(valid_edges_upto(views[0], views, 1) =~= Seq::<usize>::empty());
        assert(e0 =~= seq![1usize]);
        assert(edges_of(views, 0) == e0);
        let target = search_target(views);
        assert(graph_row_len(views) == 2);
        assert(target == 1);
        let chains = dfs(views, seq![1usize], 1);
        assert(seq![1usize].no_duplicates());
        assert(chains == emit_check(seq![1usize]));
        assert(chains =~= seq![seq![1usize]]);
        let tail = node_half_methods_spec(views, 1, 0);
        assert(tail.len() == 1);
        assert(tail[0] == seq![0usize] + seq![1usize]);
        assert(tail[0] =~= seq![0usize, 1usize]);
        let hms = graph_half_methods(views);
        assert(half_methods_upto(views, 0) == Seq::<Seq<usize>>::empty());
        assert(hms == half_methods_upto(views, 1));
        assert(hms =~= tail);
        assert(hms.len() == 1);
        assert(hms[0].len() == 2);
        let m = one_method(hms[0]);
        assert(m =~= seq![0usize, 1usize, 0usize]);
        assert(graph_method_stream(views) == seq![m]);
    }
}

/// Of every constructed node of a well-formed graph, each stored edge points
/// at a node of the graph that is not rounds and not the node itself, and
/// whose row is one valid change away from the node's own row.
pub proof fn lemma_edge_sets_sound(views: Seq<NodeView>, k: int, x: int)
    requires
        graph_wf(views),
        0 <= k < views.len(),
        0 <= x < views[k].edges.unwrap().len(),
    ensures
        ({
            let e = views[k].edges.unwrap()[x];
            &&& e < views.len()
            &&& !views[e as int].is_rounds
            &&& e != k
            &&& views[e as int].row != views[k].row
            &&& is_valid_change_spec(views[k].row, views[e as int].row)
        }),
{
    lemma_valid_edges_membership(views[k], views, views.len() as int);
    let e = views[k].edges.unwrap()[x];
    assert(edge_ok(views[k], views[e as int]));
}

/// Building the graph twice for one bell count yields the same graph, and so
/// the same sequence of full methods: the engine is deterministic.
pub proof fn lemma_engine_deterministic(
    g1: &PermutationGraph,
    g2: &PermutationGraph,
    bells_amount: nat,
)
    requires
        graph_wf(g1@),
        graph_wf(g2@),
        built_from(g1@, bells_amount),
        built_from(g2@, bells_amount),
    ensures
        g1@ == g2@,
        graph_method_stream(g1@) == graph_method_stream(g2@),
{
    if bells_amount == 0 {
        assert(g1@ =~= g2@);
    } else {
        assert(g1@.len() == g2@.len());
        assert forall|k: int| 0 <= k < g1@.len() implies g1@[k] == g2@[k] by {
            assert(g1@[k].row == generated_rows(bells_amount as int)[k]);
            assert(g2@[k].row == generated_rows(bells_amount as int)[k]);
            lemma_valid_edges_congruence(g1@[k], g2@[k], g1@, g2@, g1@.len() as int);
            assert(g1@[k] =~= g2@[k]);
        }
        assert(g1@ =~= g2@);
    }
}

/// The set of all n! rows for a given bell count, each row a node whose edge
/// set lists every row one valid change away. Built once; read thereafter.
pub struct PermutationGraph {
    pub nodes: Vec<PermutationNode>,
}

impl View for PermutationGraph {
    type V = Seq<NodeView>;

    open spec fn view(&self) -> Seq<NodeView> {
        views_of(self.nodes@)
    }
}

impl PermutationGraph {
    /// Generates every row for the given bell count, wraps each in a node, and
    /// extracts every edge set. Zero bells yield the empty graph.
    pub fn new(bells_amount: usize) -> (graph: PermutationGraph)
        requires
            bells_amount <= 20,
            fact(bells_amount as nat) <= usize::MAX,
        ensures
            graph_wf(graph@),
            graph@.len() == if bells_amount == 0 {
                0nat
            } else {
                fact(bells_amount as nat)
            },
            built_from(graph@, bells_amount as nat),
            graph_rows_are_orderings(graph@, bells_amount as nat),
    {
        let mut nodes: Vec<PermutationNode> = Vec::new();
        if bells_amount > 0 {
            let mut rows = generate_all_rows(bells_amount);
            let ghost all_rows = rows@.map_values(|r: Vec<u8>| r@);
            proof {
                assert(all_rows.len() == rows@.len());
                assert forall|k: int| 0 <= k < all_rows.len() implies #[trigger] all_rows[k]
                    == rows@[k]@ by {}
            }
            let ghost total = rows@.len();
            let mut i: usize = 0;
            while rows.len() > 0
                invariant
                    total <= usize::MAX,
                    i + rows@.len() == total,
                    all_rows.len() == total,
                    nodes@.len() == i,
                    bells_amount <= 20,
                    forall|k: int|
                        0 <= k < all_rows.len() ==> (#[trigger] all_rows[k]).len()
                            == bells_amount,
                    forall|k: int|
                        0 <= k < rows@.len() ==> (#[trigger] rows@[k])@ == all_rows[i + k],
                    forall|k: int|
                        0 <= k < i ==> {
                            &&& (#[trigger] nodes@[k])@.row == all_rows[k]
                            &&& nodes@[k]@.is_rounds == row_is_identity(all_rows[k])
                            &&& nodes@[k]@.edges is None
                        },
                decreases rows@.len(),
            {
                let row = rows.remove(0);
                nodes.push(PermutationNode::new(row));
                i = i + 1;
            }
        }
        Self::build_node_graph(&mut nodes);
        let graph = PermutationGraph { nodes };
        let node_total = graph.nodes.len();
        proof {
            assert(graph@.len() == node_total);
            let views = graph@;
            assert forall|k: int| 0 <= k < views.len() implies #[trigger] views[k]
                == graph.nodes@[k]@ by {}
            if bells_amount > 0 {
                let n = bells_amount as nat;
                assert(views.len() == fact(n));
                assert forall|k: int| 0 <= k < views.len() implies row_is_ordering(
                    (#[trigger] views[k]).row,
                    n,
                ) by {
                    assert(views[k].row == generated_rows(bells_amount as int)[k]);
                }
                if views.len() > 1 {
                    assert(fact(n) >= 2);
                    if n <= 1 {
                        assert(fact(0) == 1);
                        assert(fact(1) == 1 * fact(0));
                        assert(fact(n) == 1);
                    }
                    assert(n >= 2);
                }
            }
        }
        graph
    }

    /// The lazy sequence of every full method of this graph: the one empty
    /// method for an empty graph, else the collected half-methods handed to
    /// the iterator that fits their count. Half-methods of a shape no
    /// iterator fits — none at all, or a single long one — signal an internal
    /// fault, and no iterator is returned.
    pub fn get_valid_full_methods(&self) -> (r: Option<MethodIterator>)
        requires
            graph_wf(self@),
        ensures
            r is Some <==> graph_methods_ok(self@),
            r matches Some(it) ==> it.wf() && it.upcoming() == graph_method_stream(self@),
    {
        let ghost views = self@;
        if self.nodes.is_empty() {
            let it = method_iterator::new(Vec::new());
            proof {
                assert(Seq::<Vec<usize>>::empty().map_values(|m: Vec<usize>| m@) =~= Seq::<
                    Seq<usize>,
                >::empty());
                assert(it.upcoming() == graph_method_stream(views));
            }
            return Some(it);
        }
        let half_methods = self.get_valid_half_methods();
        let ghost hms = graph_half_methods(views);
        proof {
            lemma_half_methods_nonempty(views, edges_of(views, 0).len() as int);
            assert(half_methods@.map_values(|m: Vec<usize>| m@) == hms);
            assert forall|k: int| 0 <= k < half_methods@.len() implies (#[trigger] half_methods@[
                k
            ])@.len() > 0 by {
                if views.len() == 1 {
                    assert(hms == seq![seq![0usize]]);
                    assert(half_methods@[k]@ == hms[k]);
                } else {
                    assert(half_methods@[k]@ == hms[k]);
                }
            }
        }
        if half_methods.len() >= 2 {
            Some(method_iterator::new(half_methods))
        } else if half_methods.len() == 1 {
            let only_len = half_methods[0].len();
            proof {
                assert(half_methods@[0]@ == hms[0]);
            }
            if 1 <= only_len && only_len <= 2 {
                Some(method_iterator::new(half_methods))
            } else {
                None
            }
        } else {
            None
        }
    }

    /// Runs one depth-first search from the starting edge `first_change` and
    /// reports every duplicate-free chain of the half-method depth, in edge
    /// order, each chain prefixed with the rounds node.
    pub fn get_node_half_methods(&self, first_change: usize, rounds_node: usize) -> (r: Vec<
        Vec<usize>,
    >)
        requires
            graph_wf(self@),
            self@.len() > 1,
            first_change < self@.len(),
            rounds_node < self@.len(),
        ensures
            r@.map_values(|m: Vec<usize>| m@) == node_half_methods_spec(
                self@,
                first_change,
                rounds_node,
            ),
    {
        let ghost views = self@;
        let ghost target = search_target(views);
        let node_count = self.nodes.len();
        proof {
            lemma_graph_wf_linked(views);
            assert(views.len() == node_count);
            assert(views[first_change as int] == self.nodes@[first_change as int]@);
            assert(graph_row_len(views) >= 2);
            assert(fact(0) == 1);
            assert(fact(1) == 1 * fact(0));
            assert(fact(2) == 2 * fact(1));
            lemma_fact_monotone(2, graph_row_len(views));
            assert(target >= 1);
        }
        let mut node_stack = NodeStack::new(&self.nodes, first_change);
        let ghost mut produced: Seq<Seq<usize>> = Seq::empty();
        let mut half_methods: Vec<Vec<usize>> = Vec::new();
        proof {
            let stack0 = node_stack.node_stack@;
            assert(stack0.len() == 1);
            assert(stack0.last() == NodeAndIndex { node: first_change, index: 0 });
            assert(chain_of(stack0) =~= seq![first_change]);
            assert(chain_of(stack0).len() == 1);
            assert(stack0.drop_last() =~= Seq::<NodeAndIndex>::empty());
            assert(remaining(views, Seq::<NodeAndIndex>::empty(), target) == Seq::<
                Seq<usize>,
            >::empty());
            assert(remaining(views, stack0, target) =~= dfs(views, seq![first_change], target));
            assert(produced + remaining(views, stack0, target) =~= dfs(
                views,
                seq![first_change],
                target,
            ));
            assert(half_methods@.map_values(|m: Vec<usize>| m@) =~= produced.map_values(
                |c: Seq<usize>| seq![rounds_node] + c,
            ));
        }
        while !node_stack.is_empty()
            invariant
                views == self@,
                views == views_of(self.nodes@),
                graph_wf(views),
                nodes_linked(views),
                views.len() <= usize::MAX,
                target == search_target(views),
                node_stack.stack_max == target,
                node_stack.node_stack@.len() <= target,
                stack_in_bounds(node_stack.node_stack@, views),
                produced + remaining(views, node_stack.node_stack@, target) == dfs(
                    views,
                    seq![first_change],
                    target,
                ),
                half_methods@.map_values(|m: Vec<usize>| m@) == produced.map_values(
                    |c: Seq<usize>| seq![rounds_node] + c,
                ),
            decreases
                    stack_weight(views, node_stack.node_stack@, target),
                    node_stack.node_stack@.len(),
        {
            let ghost stack0 = node_stack.node_stack@;
            proof {
                assert(chain_of(stack0).len() == stack0.len());
                if stack0.len() != target {
                    assert(views[stack0.last().node as int].edges is Some);
                }
            }
            let status = node_stack.push_next(&self.nodes);
            match status {
                PushStatus::End => {
                    proof {
                        lemma_step_end(views, stack0, target);
                    }
                    node_stack.pop();
                    proof {
                        assert(produced + remaining(views, node_stack.node_stack@, target) =~= dfs(
                            views,
                            seq![first_change],
                            target,
                        ));
                    }
                },
                PushStatus::Next => {
                    proof {
                        let top = stack0.last();
                        assert(views[top.node as int].edges == Some(
                            valid_edges_upto(views[top.node as int], views, views.len() as int),
                        ));
                        lemma_valid_edges_len(views[top.node as int], views, views.len() as int);
                        assert(edges_of(views, top.node).len() <= views.len());
                        lemma_step_push(views, stack0, target);
                    }
                },
                PushStatus::HalfMethod(chain) => {
                    proof {
                        lemma_step_emit(views, stack0, target);
                    }
                    let ghost ch = chain_of(stack0);
                    match chain {
                        NodeChain::Unique(half_method) => {
                            let mut method_with_rounds: Vec<usize> = Vec::new();
                            method_with_rounds.push(rounds_node);
                            let mut tail = half_method;
                            method_with_rounds.append(&mut tail);
                            proof {
                                assert(method_with_rounds@ =~= seq![rounds_node] + ch);
                            }
                            let ghost before = half_methods@;
                            half_methods.push(method_with_rounds);
                            proof {
                                assert(emit_check(ch) =~= seq![ch]);
                                let f = |m: Vec<usize>| m@;
                                let g = |c: Seq<usize>| seq![rounds_node] + c;
                                assert(half_methods@.map_values(f) =~= produced.push(ch)
                                    .map_values(g)) by {
                                    assert(half_methods@.map_values(f).len() == before.map_values(
                                        f,
                                    ).len() + 1);
                                    assert forall|x: int|
                                        0 <= x < half_methods@.map_values(f).len() implies
                                        half_methods@.map_values(f)[x] == produced.push(ch)
                                            .map_values(g)[x] by {
                                        if x < before.len() {
                                            assert(half_methods@[x] == before[x]);
                                            assert(before.map_values(f)[x] == produced.map_values(
                                                g,
                                            )[x]);
                                        }
                                    }
                                }
                                produced = produced.push(ch);
                            }
                        },
                        NodeChain::Duplicates => {
                            proof {
                                assert(emit_check(ch) =~= Seq::<Seq<usize>>::empty());
                            }
                        },
                    }
                    node_stack.pop();
                    proof {
                        assert(produced + remaining(views, node_stack.node_stack@, target) =~= dfs(
                            views,
                            seq![first_change],
                            target,
                        ));
                    }
                },
            }
        }
        proof {
            assert(remaining(views, node_stack.node_stack@, target) == Seq::<Seq<usize>>::empty());
            assert(produced =~= dfs(views, seq![first_change], target));
            assert(half_methods@.map_values(|m: Vec<usize>| m@) == node_half_methods_spec(
                views,
                first_change,
                rounds_node,
            ));
        }
        half_methods
    }

    /// Collects the half-methods of every starting edge of rounds, one search
    /// per edge, and concatenates the reports in edge order. A one-node graph
    /// has the single chain of rounds alone.
    pub fn get_valid_half_methods(&self) -> (r: Vec<Vec<usize>>)
        requires
            graph_wf(self@),
            self@.len() >= 1,
        ensures
            r@.map_values(|m: Vec<usize>| m@) == graph_half_methods(self@),
    {
        let ghost views = self@;
        if self.nodes.len() == 1 {
            let mut only: Vec<usize> = Vec::new();
            only.push(0);
            let mut result: Vec<Vec<usize>> = Vec::new();
            result.push(only);
            proof {
                assert(result@.map_values(|m: Vec<usize>| m@) =~= seq![seq![0usize]]);
            }
            return result;
        }
        proof {
            assert(views[0] == self.nodes@[0]@);
        }
        let rounds_valid_permutations = self.nodes[0].get_valid_permutations();
        let mut half_methods: Vec<Vec<usize>> = Vec::new();
        let mut k: usize = 0;
        proof {
            assert(rounds_valid_permutations@ == edges_of(views, 0));
            assert(half_methods@.map_values(|m: Vec<usize>| m@) =~= half_methods_upto(views, 0));
        }
        while k < rounds_valid_permutations.len()
            invariant
                views == self@,
                views == views_of(self.nodes@),
                graph_wf(views),
                views.len() > 1,
                rounds_valid_permutations@ == edges_of(views, 0),
                k <= edges_of(views, 0).len(),
                half_methods@.map_values(|m: Vec<usize>| m@) == half_methods_upto(views, k as int),
            decreases rounds_valid_permutations@.len() - k,
        {
            let change = rounds_valid_permutations[k];
            proof {
                assert(views[0] == self.nodes@[0]@);
                lemma_valid_edges_membership(views[0], views, views.len() as int);
                assert(change < views.len());
            }
            let ghost before = half_methods@;
            let mut batch = self.get_node_half_methods(change, 0);
            let ghost batch_view = batch@;
            half_methods.append(&mut batch);
            proof {
                let f = |m: Vec<usize>| m@;
                assert(half_methods@.map_values(f) =~= before.map_values(f)
                    + batch_view.map_values(f));
            }
            k = k + 1;
        }
        half_methods
    }

    /// Extracts every node's edge set against the full node list. Each edge
    /// set is written exactly once, after every node exists.
    pub fn build_node_graph(nodes: &mut Vec<PermutationNode>)
        requires
            forall|i: int, j: int|
                0 <= i < old(nodes)@.len() && 0 <= j < old(nodes)@.len()
                    ==> (#[trigger] old(nodes)@[i])@.row.len() == (#[trigger] old(
                    nodes,
                )@[j])@.row.len(),
            forall|i: int|
                0 <= i < old(nodes)@.len() ==> (#[trigger] old(nodes)@[i])@.edges is None,
        ensures
            final(nodes)@.len() == old(nodes)@.len(),
            forall|i: int|
                0 <= i < old(nodes)@.len() ==> {
                    &&& (#[trigger] final(nodes)@[i])@.row == old(nodes)@[i]@.row
                    &&& final(nodes)@[i]@.is_rounds == old(nodes)@[i]@.is_rounds
                    &&& final(nodes)@[i]@.edges == Some(
                        valid_edges_upto(
                            final(nodes)@[i]@,
                            views_of(final(nodes)@),
                            final(nodes)@.len() as int,
                        ),
                    )
                },
    {
        let ghost orig = views_of(old(nodes)@);
        proof {
            assert forall|k: int| 0 <= k < orig.len() implies #[trigger] orig[k] == old(
                nodes,
            )@[k]@ by {}
        }
        let mut i: usize = 0;
        while i < nodes.len()
            invariant
                nodes@.len() == orig.len(),
                i <= orig.len(),
                forall|k: int|
                    0 <= k < orig.len() ==> (#[trigger] nodes@[k])@.row == orig[k].row
                        && nodes@[k]@.is_rounds == orig[k].is_rounds,
                forall|k: int, j: int|
                    0 <= k < orig.len() && 0 <= j < orig.len() ==> (#[trigger] orig[k]).row.len()
                        == (#[trigger] orig[j]).row.len(),
                forall|k: int|
                    0 <= k < i ==> (#[trigger] nodes@[k])@.edges == Some(
                        valid_edges_upto(orig[k], orig, orig.len() as int),
                    ),
                forall|k: int| i <= k < orig.len() ==> (#[trigger] nodes@[k])@.edges is None,
            decreases orig.len() - i,
        {
            let edges = nodes[i].collect_valid_permutations(nodes);
            proof {
                assert forall|k: int| 0 <= k < orig.len() implies (#[trigger] views_of(nodes@)[k])
                    == nodes@[k]@ by {}
                lemma_valid_edges_congruence(
                    nodes@[i as int]@,
                    orig[i as int],
                    views_of(nodes@),
                    orig,
                    orig.len() as int,
                );
            }
            nodes[i].extract_valid_permutations(edges);
            i = i + 1;
        }
        proof {
            let fin = views_of(nodes@);
            assert forall|k: int| 0 <= k < orig.len() implies (#[trigger] fin[k])
                == nodes@[k]@ by {}
            assert forall|k: int| 0 <= k < orig.len() implies (#[trigger] nodes@[k])@.edges
                == Some(valid_edges_upto(fin[k], fin, fin.len() as int)) by {
                lemma_valid_edges_congruence(orig[k], fin[k], orig, fin, orig.len() as int);
            }
        }
    }
}

} // verus!

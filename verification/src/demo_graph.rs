//! Random graphs for trying out the graph view.

use vstd::prelude::*;
use rand::RngExt;
use vstd::multiset::Multiset;

verus! {

#[verifier::external_type_specification]
#[verifier::external_body]
#[verifier::reject_recursive_types(N)]
#[verifier::reject_recursive_types(E)]
#[verifier::reject_recursive_types(Ty)]
#[verifier::reject_recursive_types(Ix)]
pub struct ExStableGraph<N, E, Ty, Ix>(petgraph::stable_graph::StableGraph<N, E, Ty, Ix>);

#[verifier::external_type_specification]
#[verifier::external_body]
pub struct ExUndirected(petgraph::Undirected);

/// The graphs built here: no weights, undirected, 32-bit indices.
pub type PlainGraph = petgraph::stable_graph::StableGraph<(), (), petgraph::Undirected, u32>;

/// The node slots of a graph, by index: entry `k` is true where index `k`
/// names a node and false where the slot is vacant (a removed node whose
/// index waits to be reused).
pub uninterp spec fn graph_node_slots(g: PlainGraph) -> Seq<bool>;

/// The edges of a graph, as pairs of node indices (parallel edges count
/// once each).
pub uninterp spec fn graph_edges(g: PlainGraph) -> Multiset<(nat, nat)>;

/// Calls `StableGraph::default`. Claims that the graph has neither node slots
/// nor edges.
#[verifier::external_body]
fn graph_new() -> (res: PlainGraph)
    ensures
        graph_node_slots(res) == Seq::<bool>::empty(),
        graph_edges(res) == Multiset::<(nat, nat)>::empty(),
{
    petgraph::stable_graph::StableGraph::default()
}

/// Calls `StableGraph::add_node`. Claims what its source shows: where a slot
/// is vacant, the node takes one of the vacant slots; where none is, the node
/// takes a new slot at the end, whose index is the former slot count. The
/// edges stay. It panics only when there is no vacant slot and the slot
/// count has reached the reserved index `u32::MAX`, which the requirement
/// rules out.
#[verifier::external_body]
fn graph_add_node(g: &mut PlainGraph) -> (res: usize)
    requires
        graph_node_slots(*old(g)).len() < u32::MAX,
    ensures
        (forall|k: int| 0 <= k < graph_node_slots(*old(g)).len() ==> #[trigger] graph_node_slots(*old(g))[k])
            ==> res == graph_node_slots(*old(g)).len()
                && graph_node_slots(*final(g)) == graph_node_slots(*old(g)).push(true),
        (exists|k: int| 0 <= k < graph_node_slots(*old(g)).len() && !#[trigger] graph_node_slots(*old(g))[k])
            ==> res < graph_node_slots(*old(g)).len()
                && !graph_node_slots(*old(g))[res as int]
                && graph_node_slots(*final(g)) == graph_node_slots(*old(g)).update(res as int, true),
        graph_edges(*final(g)) == graph_edges(*old(g)),
{
    g.add_node(()).index()
}

/// Calls `StableGraph::add_edge` on the nodes of indices `a` and `b`. Claims
/// what its source shows: the edge is added (parallel edges are allowed) and
/// the node slots stay. It panics only where a node is missing or a graph
/// with no vacant edge slot is full, which the requirements rule out.
#[verifier::external_body]
fn graph_add_edge(g: &mut PlainGraph, a: usize, b: usize)
    requires
        a < graph_node_slots(*old(g)).len() && graph_node_slots(*old(g))[a as int],
        b < graph_node_slots(*old(g)).len() && graph_node_slots(*old(g))[b as int],
        a < u32::MAX,
        b < u32::MAX,
        graph_edges(*old(g)).len() < u32::MAX,
    ensures
        graph_node_slots(*final(g)) == graph_node_slots(*old(g)),
        graph_edges(*final(g)) == graph_edges(*old(g)).insert((a as nat, b as nat)),
{
    g.add_edge(petgraph::stable_graph::NodeIndex::new(a), petgraph::stable_graph::NodeIndex::new(b), ());
}

/// Calls `rand::rng().random_range(0..n)`. Claims only what holds of every
/// draw: it is below `n`. The range is not empty.
#[verifier::external_body]
fn random_below(n: usize) -> (res: usize)
    requires
        n > 0,
    ensures
        res < n,
{
    rand::rng().random_range(0..n)
}

/// A graph of `num_nodes` nodes, of indices `0` to `num_nodes - 1` with no
/// vacant slot, and `num_edges` edges, each between two nodes drawn at random
/// (possibly the same node, possibly parallel to another edge).
pub fn generate_random_petgraph(num_nodes: usize, num_edges: usize) -> (res: PlainGraph)
    requires
        num_nodes <= u32::MAX,
        num_edges <= u32::MAX,
        num_nodes > 0 || num_edges == 0,
    ensures
        graph_node_slots(res) == Seq::new(num_nodes as nat, |k: int| true),
        graph_edges(res).len() == num_edges,
        forall|e: (nat, nat)| graph_edges(res).contains(e) ==> e.0 < num_nodes && e.1 < num_nodes,
{
    let mut graph = graph_new();
    let mut i: usize = 0;
    while i < num_nodes
        invariant
            i <= num_nodes <= u32::MAX,
            graph_node_slots(graph) == Seq::new(i as nat, |k: int| true),
            graph_edges(graph) == Multiset::<(nat, nat)>::empty(),
        decreases num_nodes - i,
    {
        let ghost slots = graph_node_slots(graph);
        assert(forall|k: int| 0 <= k < slots.len() ==> #[trigger] slots[k]);
        let index = graph_add_node(&mut graph);
        assert(index == i);
        i = i + 1;
        assert(graph_node_slots(graph) =~= Seq::new(i as nat, |k: int| true));
    }
    let mut j: usize = 0;
    while j < num_edges
        invariant
            j <= num_edges <= u32::MAX,
            num_nodes <= u32::MAX,
            num_nodes > 0 || num_edges == 0,
            graph_node_slots(graph) == Seq::new(num_nodes as nat, |k: int| true),
            graph_edges(graph).len() == j,
            forall|e: (nat, nat)| graph_edges(graph).contains(e) ==> e.0 < num_nodes && e.1 < num_nodes,
        decreases num_edges - j,
    {
        let source = random_below(num_nodes);
        let target = random_below(num_nodes);
        let ghost before = graph_edges(graph);
        graph_add_edge(&mut graph, source, target);
        assert forall|e: (nat, nat)| graph_edges(graph).contains(e)
            implies e.0 < num_nodes && e.1 < num_nodes by {
            if e != (source as nat, target as nat) {
                assert(graph_edges(graph).count(e) == before.count(e));
                assert(before.contains(e));
            }
        }
        j = j + 1;
    }
    graph
}

} // verus!

use crawler_rs::benchmark::{inject_targets, seed_targets};
use crawler_rs::demo_graph::generate_random_petgraph;

#[test]
fn random_graph_has_the_asked_size() {
    let g = generate_random_petgraph(10, 25);
    assert_eq!(g.node_count(), 10);
    assert_eq!(g.edge_count(), 25);
    let nodes: Vec<usize> = g.node_indices().map(|n| n.index()).collect();
    assert_eq!(nodes, (0..10).collect::<Vec<usize>>());
    for e in g.edge_indices() {
        let (a, b) = g.edge_endpoints(e).unwrap();
        assert!(a.index() < 10 && b.index() < 10);
    }
}

#[test]
fn random_graph_may_be_empty() {
    let g = generate_random_petgraph(0, 0);
    assert_eq!(g.node_count(), 0);
    assert_eq!(g.edge_count(), 0);
    let g = generate_random_petgraph(3, 0);
    assert_eq!(g.node_count(), 3);
    assert_eq!(g.edge_count(), 0);
}

#[test]
fn benchmark_targets() {
    assert_eq!(seed_targets(5), vec![None, Some(0), Some(0), Some(0), Some(0)]);
    let t = inject_targets(5, 3);
    let expected: Vec<Option<usize>> = (5usize..8)
        .map(|n| Some(n.wrapping_mul(1103515245).wrapping_add(12345) % n))
        .collect();
    assert_eq!(t, expected);
    assert_eq!(inject_targets(5, 1), vec![Some((5usize * 1103515245 + 12345) % 5)]);
    assert_eq!(inject_targets(0, 2)[0], None);
    assert_eq!(inject_targets(0, 2)[1], Some(0));
}

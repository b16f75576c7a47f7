use taskgraph::graph::{TaskEdge, TaskGraph};

fn chain() -> (TaskGraph, usize, usize, usize) {
    let mut g = TaskGraph::new();
    let a = g.add_node(false);
    let b = g.add_node(false);
    let c = g.add_node(true);
    g.add_edge(a, b, TaskEdge::Outgoing);
    g.add_edge(b, c, TaskEdge::Outgoing);
    (g, a, b, c)
}

#[test]
fn add_node_returns_consecutive_handles() {
    let (g, a, b, c) = chain();
    assert_eq!((a, b, c), (0, 1, 2));
    assert_eq!(g.node_count(), 3);
    assert!(!g.is_repeatable(a));
    assert!(g.is_repeatable(c));
}

#[test]
fn normalize_adds_opposite_mirrors_after_existing_edges() {
    let (mut g, a, b, c) = chain();
    g.normalize();
    assert_eq!(g.edge_count(), 4);
    assert_eq!(g.edge(0), (a, b, TaskEdge::Outgoing));
    assert_eq!(g.edge(1), (b, c, TaskEdge::Outgoing));
    assert_eq!(g.edge(2), (b, a, TaskEdge::Incoming));
    assert_eq!(g.edge(3), (c, b, TaskEdge::Incoming));
    for i in 0..g.edge_count() {
        let (u, v, k) = g.edge(i);
        let mirrored = (0..g.edge_count()).any(|j| {
            let (x, y, m) = g.edge(j);
            x == v && y == u && m != k
        });
        assert!(mirrored);
    }
}

#[test]
fn normalize_twice_adds_nothing() {
    let (mut g, _, _, _) = chain();
    g.normalize();
    let first: Vec<_> = (0..g.edge_count()).map(|i| g.edge(i)).collect();
    g.normalize();
    let second: Vec<_> = (0..g.edge_count()).map(|i| g.edge(i)).collect();
    assert_eq!(first, second);
}

#[test]
fn normalize_keeps_an_existing_reverse_edge() {
    let mut g = TaskGraph::new();
    let a = g.add_node(false);
    let b = g.add_node(false);
    g.add_edge(a, b, TaskEdge::Outgoing);
    g.add_edge(b, a, TaskEdge::Incoming);
    g.normalize();
    assert_eq!(g.edge_count(), 2);
}

#[test]
fn normalize_mirrors_an_incoming_edge_as_outgoing() {
    let mut g = TaskGraph::new();
    let a = g.add_node(false);
    let b = g.add_node(false);
    g.add_edge(b, a, TaskEdge::Incoming);
    g.normalize();
    assert_eq!(g.edge(1), (a, b, TaskEdge::Outgoing));
    assert_eq!(g.successors(a), vec![b]);
}

#[test]
fn successors_follow_outgoing_edges_in_insertion_order() {
    let mut g = TaskGraph::new();
    let a = g.add_node(false);
    let b = g.add_node(false);
    let c = g.add_node(false);
    let d = g.add_node(false);
    g.add_edge(a, c, TaskEdge::Outgoing);
    g.add_edge(a, b, TaskEdge::Outgoing);
    g.add_edge(a, d, TaskEdge::Incoming);
    g.add_edge(a, d, TaskEdge::Outgoing);
    g.normalize();
    assert_eq!(g.successors(a), vec![c, b, d]);
    assert_eq!(g.successors(b), Vec::<usize>::new());
    assert!(g.contains_edge(b, a));
    assert!(!g.contains_edge(b, c));
}

use useful_noise::graph::{Graph, GraphError, DEST_INDEX};
use useful_noise::node::{DebugNode, Node};

#[test]
fn chain_adds_pairwise_edges_and_the_tail() {
    // chain([a, b, c]) on an empty graph with destination d produces the
    // edges a->b, b->c, c->d, and finalize succeeds with the order
    // [a, b, c, d].
    let mut g = Graph::new(7);
    let a = g.add_node(Node::Debug(DebugNode));
    let b = g.add_node(Node::Debug(DebugNode));
    let c = g.add_node(Node::Debug(DebugNode));
    let refs = vec![a, b, c];
    assert!(g.chain(&refs).is_ok());
    assert_eq!(g.edges.len(), 3);
    assert!(g.edges[0].source == a.index && g.edges[0].dest == b.index);
    assert!(g.edges[1].source == b.index && g.edges[1].dest == c.index);
    assert!(g.edges[2].source == c.index && g.edges[2].dest == DEST_INDEX);
    let order = g.finalize().unwrap();
    assert_eq!(order, vec![a.index, b.index, c.index, DEST_INDEX]);
}

#[test]
fn connect_refuses_a_foreign_reference() {
    // A reference produced by one graph is refused by another.
    let mut g1 = Graph::new(1);
    let foreign = g1.add_node(Node::Debug(DebugNode));
    let mut g2 = Graph::new(2);
    let local = g2.add_node(Node::Debug(DebugNode));
    let r = g2.connect(foreign, local);
    assert!(matches!(r, Err(GraphError::UnknownNodeReference)));
    assert_eq!(g2.edges.len(), 0);
    let r2 = g2.connect(local, foreign);
    assert!(matches!(r2, Err(GraphError::UnknownNodeReference)));
}

#[test]
fn connect_refuses_an_out_of_range_reference() {
    let mut g1 = Graph::new(3);
    let a = g1.add_node(Node::Debug(DebugNode));
    let mut g2 = Graph::new(3);
    let b = g2.add_node(Node::Debug(DebugNode));
    let c = g2.add_node(Node::Debug(DebugNode));
    // Same graph identity, but g1 never produced index 2.
    let r = g1.connect(a, c);
    assert!(matches!(r, Err(GraphError::UnknownNodeReference)));
    let _ = b;
}

#[test]
fn a_two_cycle_fails_finalize() {
    // Edges a->b and b->a admit no topological order.
    let mut g = Graph::new(9);
    let a = g.add_node(Node::Debug(DebugNode));
    let b = g.add_node(Node::Debug(DebugNode));
    assert!(g.connect(a, b).is_ok());
    assert!(g.connect(b, a).is_ok());
    let r = g.finalize();
    assert!(matches!(r, Err(GraphError::CyclicGraph)));
}

#[test]
fn a_self_loop_fails_finalize() {
    let mut g = Graph::new(10);
    let a = g.add_node(Node::Debug(DebugNode));
    assert!(g.connect(a, a).is_ok());
    assert!(matches!(g.finalize(), Err(GraphError::CyclicGraph)));
}

#[test]
fn finalize_orders_a_diamond() {
    // a feeds b and c, both feed the destination; a comes first and every
    // edge respects the order.
    let mut g = Graph::new(11);
    let a = g.add_node(Node::Debug(DebugNode));
    let b = g.add_node(Node::Debug(DebugNode));
    let c = g.add_node(Node::Debug(DebugNode));
    let d = g.destination();
    assert!(g.connect(a, b).is_ok());
    assert!(g.connect(a, c).is_ok());
    assert!(g.connect(b, d).is_ok());
    assert!(g.connect(c, d).is_ok());
    let order = g.finalize().unwrap();
    assert_eq!(order, vec![a.index, b.index, c.index, DEST_INDEX]);
}

#[test]
fn an_empty_chain_adds_nothing() {
    let mut g = Graph::new(12);
    let refs = vec![];
    assert!(g.chain(&refs).is_ok());
    assert_eq!(g.edges.len(), 0);
    let order = g.finalize().unwrap();
    assert_eq!(order, vec![DEST_INDEX]);
}

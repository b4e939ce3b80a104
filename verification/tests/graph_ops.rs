use node_jit::graph::{GraphError, IndexGraph, NodeDesc, NodeInfo, SocketInfo};

fn desc(name: &str, ins: &[&str], outs: &[&str]) -> NodeDesc {
    NodeDesc {
        name: name.to_string(),
        inputs: ins.iter().map(|s| s.to_string()).collect(),
        outputs: outs.iter().map(|s| s.to_string()).collect(),
    }
}

#[test]
fn topo_orders_source_before_destination() {
    let mut g = IndexGraph::new();
    let add = desc("add", &["a", "b"], &["sum"]);
    let mul = desc("mul", &["x", "y"], &["product"]);
    // Insert mul first so identity order disagrees with dependency order.
    let _mul_id = g.add_node(&mul); // sockets 0, 1, 2
    let _add_id = g.add_node(&add); // sockets 3, 4, 5
    // add.sum (socket 5) feeds mul.x (socket 0).
    assert_eq!(g.connect(5, 0), Ok(()));
    let order = g.topo_order().unwrap();
    assert_eq!(order, vec![1, 0]);
}

#[test]
fn topo_is_stable_across_repeated_calls() {
    let mut g = IndexGraph::new();
    let a = desc("a", &[], &["o"]);
    let b = desc("b", &["i"], &["o"]);
    let c = desc("c", &["i"], &[]);
    g.add_node(&a); // socket 0 out
    g.add_node(&b); // sockets 1 in, 2 out
    g.add_node(&c); // socket 3 in
    assert_eq!(g.connect(0, 1), Ok(()));
    assert_eq!(g.connect(2, 3), Ok(()));
    let first = g.topo_order().unwrap();
    let second = g.topo_order().unwrap();
    assert_eq!(first, second);
    assert_eq!(first, vec![0, 1, 2]);
}

#[test]
fn connect_rejects_cycle_and_leaves_graph_unchanged() {
    let mut g = IndexGraph::new();
    let f = desc("f", &["i"], &["o"]);
    g.add_node(&f); // sockets 0 in, 1 out
    g.add_node(&f); // sockets 2 in, 3 out
    assert_eq!(g.connect(1, 2), Ok(()));
    let before = node_jit::emit::emit(&g).unwrap();
    // Closing the loop back from node 1 to node 0 must be refused.
    assert_eq!(g.connect(3, 0), Err(GraphError::InvalidConnection));
    let after = node_jit::emit::emit(&g).unwrap();
    assert_eq!(before, after);
    assert!(g.topo_order().is_ok());
}

#[test]
fn connect_rejects_same_node_and_occupied_input() {
    let mut g = IndexGraph::new();
    let f = desc("f", &["i"], &["o"]);
    g.add_node(&f); // sockets 0 in, 1 out
    g.add_node(&f); // sockets 2 in, 3 out
    g.add_node(&f); // sockets 4 in, 5 out
    // Same node.
    assert_eq!(g.connect(1, 0), Err(GraphError::InvalidConnection));
    // Wrong directions.
    assert_eq!(g.connect(0, 1), Err(GraphError::InvalidConnection));
    // Unknown socket identity.
    assert_eq!(g.connect(9, 0), Err(GraphError::UnknownSocket));
    assert_eq!(g.connect(1, 2), Ok(()));
    // Occupied by a different source: explicit disconnect required.
    assert_eq!(g.connect(5, 2), Err(GraphError::InvalidConnection));
    // Re-connecting the same source is accepted as a no-op.
    assert_eq!(g.connect(1, 2), Ok(()));
}

#[test]
fn disconnect_unconnected_input_is_noop() {
    let mut g = IndexGraph::new();
    let f = desc("f", &["i"], &["o"]);
    g.add_node(&f); // sockets 0 in, 1 out
    let before = node_jit::emit::emit(&g).unwrap();
    g.disconnect(0); // never connected
    g.disconnect(1); // not an input
    g.disconnect(42); // not a socket
    let after = node_jit::emit::emit(&g).unwrap();
    assert_eq!(before, after);
}

#[test]
fn disconnect_then_reconnect() {
    let mut g = IndexGraph::new();
    let f = desc("f", &["i"], &["o"]);
    g.add_node(&f); // 0 in, 1 out
    g.add_node(&f); // 2 in, 3 out
    g.add_node(&f); // 4 in, 5 out
    assert_eq!(g.connect(1, 2), Ok(()));
    g.disconnect(2);
    assert_eq!(g.connect(5, 2), Ok(()));
    let order = g.topo_order().unwrap();
    assert_eq!(order, vec![0, 2, 1]);
}

#[test]
fn remove_node_cascades_connections() {
    let mut g = IndexGraph::new();
    let f = desc("f", &["i"], &["o"]);
    g.add_node(&f); // 0 in, 1 out
    g.add_node(&f); // 2 in, 3 out
    g.add_node(&f); // 4 in, 5 out
    assert_eq!(g.connect(1, 2), Ok(()));
    assert_eq!(g.connect(3, 4), Ok(()));
    assert_eq!(g.remove_node(1), Ok(()));
    // Node 1's connections are gone; its input is free but dead.
    assert_eq!(g.connect(1, 2), Err(GraphError::UnknownSocket));
    // The survivors are unwired now.
    assert_eq!(g.connect(1, 4), Ok(()));
    assert_eq!(g.remove_node(1), Err(GraphError::UnknownNode));
    assert_eq!(g.remove_node(7), Err(GraphError::UnknownNode));
}

#[test]
fn trial_connect_mutates_nothing() {
    let mut g = IndexGraph::new();
    let f = desc("f", &["i"], &["o"]);
    g.add_node(&f); // 0 in, 1 out
    g.add_node(&f); // 2 in, 3 out
    let before = node_jit::emit::emit(&g).unwrap();
    assert_eq!(g.can_connect(1, 2), None);
    assert_eq!(g.can_connect(3, 2), Some(GraphError::InvalidConnection));
    let after = node_jit::emit::emit(&g).unwrap();
    assert_eq!(before, after);
    // The trial's verdict is what a commit then does.
    assert_eq!(g.connect(1, 2), Ok(()));
}

#[test]
fn removal_reflects_in_emission() {
    let mut g = IndexGraph::new();
    let f = desc("f", &["i"], &["o"]);
    g.add_node(&f); // 0 in, 1 out
    g.add_node(&f); // 2 in, 3 out
    assert_eq!(g.connect(1, 2), Ok(()));
    assert_eq!(g.remove_node(0), Ok(()));
    let src = node_jit::emit::emit(&g).unwrap();
    // Only the surviving node is emitted, with its input free again.
    let expected = "fn graph(p2) -> (v3) {\n    v3 = f(p2);\n}\n";
    assert_eq!(String::from_utf8(src).unwrap(), expected);
}

#[test]
fn topo_detects_cycle_defensively() {
    // The editor's guard keeps cycles out, but the sort must still
    // detect one in a graph assembled directly.
    let node = |i: usize| NodeInfo {
        name: "f".to_string(),
        alive: true,
        inputs: vec![2 * i],
        outputs: vec![2 * i + 1],
    };
    let sock = |n: usize, is_input: bool| SocketInfo {
        node: n,
        is_input,
        label: "s".to_string(),
    };
    let g = IndexGraph {
        nodes: vec![node(0), node(1)],
        sockets: vec![sock(0, true), sock(0, false), sock(1, true), sock(1, false)],
        incoming: vec![Some(3), None, Some(1), None],
    };
    assert_eq!(g.topo_order(), Err(GraphError::CyclicGraph));
    assert_eq!(node_jit::emit::emit(&g), Err(GraphError::CyclicGraph));
}

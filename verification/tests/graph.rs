//! Graphs laid out so that every node follows the nodes it points to.
use tir::graph::generic::GenericDag;
use tir::graph::postorder::PostOrderDag;
use tir::graph::{Dag, MutDag, NodeId};

/// The tree `(0+1) + (3+4)` laid out in post order: leaves first, then each
/// sum, then the root. Returns the graph and its root.
fn sample() -> (PostOrderDag<&'static str, ()>, NodeId) {
    let mut dag = PostOrderDag::new();
    let a = dag.add_node("0");
    let b = dag.add_node("1");
    let left = dag.add_node("+");
    dag.add_edge(left, a);
    dag.add_edge(left, b);
    let c = dag.add_node("3");
    let d = dag.add_node("4");
    let right = dag.add_node("+");
    dag.add_edge(right, c);
    dag.add_edge(right, d);
    let root = dag.add_node("+");
    dag.add_edge(root, left);
    dag.add_edge(root, right);
    (dag, root)
}

#[test]
fn postorder_from_matches_global_postorder_at_root() {
    let (dag, root) = sample();
    let global: Vec<NodeId> = dag.postorder(root);
    let from: Vec<NodeId> = dag.postorder_from(root).collect();
    assert_eq!(global, from);
    assert_eq!(from.len(), dag.len());
}

#[test]
fn postorder_from_visits_only_the_subtree() {
    let (dag, _root) = sample();
    // The right sum is node 5; its subtree is nodes 3, 4, 5.
    let right = NodeId::from_index(5);
    let nodes: Vec<NodeId> = dag.postorder_from(right).collect();
    assert_eq!(
        nodes,
        vec![
            NodeId::from_index(3),
            NodeId::from_index(4),
            NodeId::from_index(5),
        ]
    );
}

#[test]
fn a_preorder_lists_a_node_before_its_subtrees() {
    let (dag, root) = sample();
    let order: Vec<usize> = dag.preorder(root).iter().map(|n| n.index()).collect();
    assert_eq!(order, vec![6, 2, 0, 1, 5, 3, 4]);
}

#[test]
fn the_last_node_is_the_root() {
    let (dag, root) = sample();
    assert_eq!(dag.root(), Some(root));
    assert_eq!(dag.children(root), vec![NodeId(2), NodeId(5)]);
    let empty: PostOrderDag<&'static str, ()> = PostOrderDag::new();
    assert_eq!(empty.root(), None);
}

#[test]
fn a_graph_that_looks_gives_the_same_orders() {
    let mut dag: GenericDag<&'static str, ()> = GenericDag::new();
    let a = dag.add_node("a");
    let b = dag.add_node("b");
    let sum = dag.add_node("+");
    dag.add_edge(sum, b);
    dag.add_edge(sum, a);
    let lone = dag.add_node("lone");
    assert_eq!(dag.root(), Some(lone));
    assert_eq!(dag.children(sum), vec![b, a]);
    assert_eq!(dag.postorder(sum), vec![a, b, sum]);
    assert_eq!(dag.preorder(sum), vec![sum, b, a]);
    assert_eq!(dag.postorder(lone), vec![lone]);
    assert_eq!(*dag.get_node(sum), "+");
}

//! Directed acyclic graphs whose nodes are named by their position.
pub mod generic;
pub mod postorder;

use vstd::prelude::*;
use crate::ids::OpId;
use crate::ids::TypeId;

verus! {

/// Names a node by its position in the graph that holds it.
#[derive(Clone, Copy, Debug, PartialEq, Eq, Hash, Structural)]
pub struct NodeId(pub u32);

impl NodeId {
    /// The position of the node.
    pub fn index(self) -> (i: usize)
        ensures
            i == self.0,
    {
        self.0 as usize
    }

    /// The node at position `i`.
    pub fn from_index(i: usize) -> (r: Self)
        requires
            i <= u32::MAX,
        ensures
            r == NodeId(i as u32),
    {
        NodeId(i as u32)
    }
}

/// The contents of a graph: what its nodes hold and which nodes each points to.
pub ghost struct DagView<N, L> {
    pub nodes: Seq<N>,
    pub edges: Seq<Seq<NodeId>>,
    pub leaves: Seq<Option<L>>,
    pub ops: Seq<Option<OpId>>,
    pub types: Seq<Option<TypeId>>,
}

/// Whether `target` is `root` or can be walked to from it along `edges`, which
/// lead from a node to nodes of lower position only.
pub open spec fn reaches(edges: Seq<Seq<NodeId>>, root: int, target: int) -> bool
    decreases root,
{
    root == target || exists|k: int|
        0 <= root < edges.len() && 0 <= k < edges[root].len() && (#[trigger] edges[root][k]).0
            < root && reaches(edges, edges[root][k].0 as int, target)
}

/// The nodes of the subtree at `node`, each ahead of the subtrees of its
/// children, which follow in order. A node reached along several paths is
/// listed once per path.
pub open spec fn preorder_of(edges: Seq<Seq<NodeId>>, node: int) -> Seq<NodeId>
    decreases node, 1nat, 0nat,
{
    if 0 <= node < edges.len() {
        seq![NodeId(node as u32)] + preorder_of_children(edges, node, edges[node].len())
    } else {
        seq![NodeId(node as u32)]
    }
}

/// The subtrees of the first `count` children of `node`, in order.
pub open spec fn preorder_of_children(
    edges: Seq<Seq<NodeId>>,
    node: int,
    count: nat,
) -> Seq<NodeId>
    decreases node, 0nat, count,
{
    if count == 0 || !(0 <= node < edges.len()) || count > edges[node].len() {
        Seq::empty()
    } else {
        let child = edges[node][count - 1].0 as int;
        preorder_of_children(edges, node, (count - 1) as nat) + if child < node {
            preorder_of(edges, child)
        } else {
            Seq::empty()
        }
    }
}

/// The nodes `root` reaches among the positions `from..=root`, in order of
/// position: since edges lead to lower positions, every node comes after the
/// nodes it points to.
pub open spec fn postorder_between(edges: Seq<Seq<NodeId>>, root: int, from: int) -> Seq<NodeId>
    decreases root + 1 - from,
{
    if from > root {
        Seq::empty()
    } else if reaches(edges, root, from) {
        seq![NodeId(from as u32)] + postorder_between(edges, root, from + 1)
    } else {
        postorder_between(edges, root, from + 1)
    }
}

/// Reading a graph.
pub trait Dag: Sized {
    type Node;

    type Leaf;

    spec fn dag(&self) -> DagView<Self::Node, Self::Leaf>;

    spec fn wf(&self) -> bool;

    /// Every node has its edges and what is recorded beside it.
    proof fn nodes_are_whole(&self)
        requires
            self.wf(),
        ensures
            self.dag().edges.len() == self.dag().nodes.len(),
            self.dag().leaves.len() == self.dag().nodes.len(),
            self.dag().ops.len() == self.dag().nodes.len(),
            self.dag().types.len() == self.dag().nodes.len(),
    ;

    /// How many nodes the graph holds.
    fn len(&self) -> (n: usize)
        requires
            self.wf(),
        ensures
            n == self.dag().nodes.len(),
    ;

    /// What the node `id` holds.
    fn get_node(&self, id: NodeId) -> (n: &Self::Node)
        requires
            self.wf(),
            id.0 < self.dag().nodes.len(),
        ensures
            *n == self.dag().nodes[id.0 as int],
    ;

    /// The leaf data of `id`, where some was set.
    fn get_leaf_data(&self, id: NodeId) -> (d: Option<&Self::Leaf>)
        requires
            self.wf(),
            id.0 < self.dag().nodes.len(),
        ensures
            d is Some <==> self.dag().leaves[id.0 as int] is Some,
            d is Some ==> *d->0 == self.dag().leaves[id.0 as int]->0,
    ;

    /// The operation `id` was made from, where one was recorded.
    fn get_original_op(&self, id: NodeId) -> (op: Option<OpId>)
        requires
            self.wf(),
            id.0 < self.dag().nodes.len(),
        ensures
            op == self.dag().ops[id.0 as int],
    ;

    /// The type recorded for `id`, where one was.
    fn get_actual_type(&self, id: NodeId) -> (ty: Option<TypeId>)
        requires
            self.wf(),
            id.0 < self.dag().nodes.len(),
        ensures
            ty == self.dag().types[id.0 as int],
    ;

    /// The node added last, or `None` for an empty graph.
    fn root(&self) -> (r: Option<NodeId>)
        requires
            self.wf(),
        ensures
            r == if self.dag().nodes.len() == 0 {
                None::<NodeId>
            } else {
                Some(NodeId((self.dag().nodes.len() - 1) as u32))
            },
    ;

    /// The nodes `id` points to, in the order the edges were added.
    fn children(&self, id: NodeId) -> (c: Vec<NodeId>)
        requires
            self.wf(),
            id.0 < self.dag().nodes.len(),
        ensures
            c@ == self.dag().edges[id.0 as int],
    ;

    /// Every node reachable from `start`, each after the nodes it points to.
    fn postorder(&self, start: NodeId) -> (order: Vec<NodeId>)
        requires
            self.wf(),
            start.0 < self.dag().nodes.len(),
        ensures
            order@ == postorder_between(self.dag().edges, start.0 as int, 0),
    ;

    /// The subtree at `start`, each node ahead of its children's subtrees.
    fn preorder(&self, start: NodeId) -> (order: Vec<NodeId>)
        requires
            self.wf(),
            start.0 < self.dag().nodes.len(),
            preorder_of(self.dag().edges, start.0 as int).len() <= usize::MAX,
        ensures
            order@ == preorder_of(self.dag().edges, start.0 as int),
    ;
}

/// Building a graph.
pub trait MutDag: Dag {
    /// Adds a node that points nowhere and carries nothing else yet.
    fn add_node(&mut self, n: Self::Node) -> (id: NodeId)
        requires
            old(self).wf(),
            old(self).dag().nodes.len() < u32::MAX,
        ensures
            final(self).wf(),
            id.0 == old(self).dag().nodes.len(),
            final(self).dag() == (DagView {
                nodes: old(self).dag().nodes.push(n),
                edges: old(self).dag().edges.push(Seq::empty()),
                leaves: old(self).dag().leaves.push(None),
                ops: old(self).dag().ops.push(None),
                types: old(self).dag().types.push(None),
            }),
    ;

    /// Makes `from` point to `to`, after everything it already points to.
    fn add_edge(&mut self, from: NodeId, to: NodeId)
        requires
            old(self).wf(),
            from.0 < old(self).dag().nodes.len(),
            to.0 < from.0,
        ensures
            final(self).wf(),
            final(self).dag() == (DagView {
                edges: old(self).dag().edges.update(
                    from.0 as int,
                    old(self).dag().edges[from.0 as int].push(to),
                ),
                ..old(self).dag()
            }),
    ;

    /// Records the leaf data of `n`, in place of what was recorded before.
    fn set_leaf_data(&mut self, n: NodeId, d: Self::Leaf)
        requires
            old(self).wf(),
            n.0 < old(self).dag().nodes.len(),
        ensures
            final(self).wf(),
            final(self).dag() == (DagView {
                leaves: old(self).dag().leaves.update(n.0 as int, Some(d)),
                ..old(self).dag()
            }),
    ;

    /// Records the operation `n` was made from.
    fn set_original_op(&mut self, n: NodeId, op: OpId)
        requires
            old(self).wf(),
            n.0 < old(self).dag().nodes.len(),
        ensures
            final(self).wf(),
            final(self).dag() == (DagView {
                ops: old(self).dag().ops.update(n.0 as int, Some(op)),
                ..old(self).dag()
            }),
    ;

    /// Records the type of `n`.
    fn set_actual_type(&mut self, n: NodeId, ty: TypeId)
        requires
            old(self).wf(),
            n.0 < old(self).dag().nodes.len(),
        ensures
            final(self).wf(),
            final(self).dag() == (DagView {
                types: old(self).dag().types.update(n.0 as int, Some(ty)),
                ..old(self).dag()
            }),
    ;
}

} // verus!

//! A graph that looks for what a node reaches each time it is asked.
use vstd::prelude::*;
use crate::graph::postorder_between;
use crate::graph::preorder_of;
use crate::graph::preorder_of_children;
use crate::graph::reaches;
use crate::graph::Dag;
use crate::graph::DagView;
use crate::graph::MutDag;
use crate::graph::NodeId;
use crate::ids::OpId;
use crate::ids::TypeId;

verus! {

/// A graph of nodes `N`, some of which carry leaf data `L`.
pub struct GenericDag<N, L> {
    nodes: Vec<N>,
    edges: Vec<Vec<NodeId>>,
    data: Vec<Option<L>>,
    original_ops: Vec<Option<OpId>>,
    actual_types: Vec<Option<TypeId>>,
}

impl<N, L> GenericDag<N, L> {
    closed spec fn edge_lists(&self) -> Seq<Seq<NodeId>> {
        self.edges@.map_values(|list: Vec<NodeId>| list@)
    }

    closed spec fn shaped(&self) -> bool {
        &&& self.edges@.len() == self.nodes@.len()
        &&& self.data@.len() == self.nodes@.len()
        &&& self.original_ops@.len() == self.nodes@.len()
        &&& self.actual_types@.len() == self.nodes@.len()
        &&& self.nodes@.len() <= u32::MAX
        &&& forall|i: int, k: int|
            0 <= i < self.edges@.len() && 0 <= k < self.edges@[i]@.len() ==> (
            #[trigger] self.edges@[i]@[k]).0 < i
    }

    /// A graph without nodes.
    pub fn new() -> (r: Self)
        ensures
            r.wf(),
            r.dag() == (DagView::<N, L> {
                nodes: Seq::empty(),
                edges: Seq::empty(),
                leaves: Seq::empty(),
                ops: Seq::empty(),
                types: Seq::empty(),
            }),
    {
        let r = GenericDag {
            nodes: Vec::new(),
            edges: Vec::new(),
            data: Vec::new(),
            original_ops: Vec::new(),
            actual_types: Vec::new(),
        };
        assert(r.edge_lists() =~= Seq::empty());
        r
    }

    fn contains_descendant(&self, root: NodeId, target: NodeId) -> (r: bool)
        requires
            self.shaped(),
            root.0 < self.nodes@.len(),
        ensures
            r == reaches(self.edge_lists(), root.0 as int, target.0 as int),
        decreases root.0,
    {
        if root == target {
            return true;
        }
        let ghost edges = self.edge_lists();
        let at: usize = root.index();
        assert(edges[at as int] == self.edges@[at as int]@);
        let mut k: usize = 0;
        while k < self.edges[at].len()
            invariant
                self.shaped(),
                edges == self.edge_lists(),
                at == root.0,
                at < self.nodes@.len(),
                edges[at as int] == self.edges@[at as int]@,
                k <= self.edges@[at as int]@.len(),
                root != target,
                forall|j: int|
                    0 <= j < k ==> !reaches(
                        edges,
                        (#[trigger] edges[at as int][j]).0 as int,
                        target.0 as int,
                    ),
            decreases self.edges@[at as int]@.len() - k,
        {
            let child: NodeId = self.edges[at][k];
            assert(self.edges@[at as int]@[k as int].0 < at);
            if self.contains_descendant(child, target) {
                assert(edges[root.0 as int][k as int] == child);
                return true;
            }
            k += 1;
        }
        false
    }

    fn push_preorder(&self, node: NodeId, order: &mut Vec<NodeId>)
        requires
            self.shaped(),
            node.0 < self.nodes@.len(),
        ensures
            final(order)@ == old(order)@ + preorder_of(self.edge_lists(), node.0 as int),
        decreases node.0,
    {
        let ghost edges = self.edge_lists();
        let ghost before = order@;
        let at: usize = node.index();
        assert(edges[at as int] == self.edges@[at as int]@);
        order.push(node);
        let mut k: usize = 0;
        assert(order@ =~= before + (seq![node] + preorder_of_children(edges, at as int, 0)));
        while k < self.edges[at].len()
            invariant
                self.shaped(),
                edges == self.edge_lists(),
                at == node.0,
                at < self.nodes@.len(),
                edges[at as int] == self.edges@[at as int]@,
                k <= self.edges@[at as int]@.len(),
                order@ == before + (seq![node] + preorder_of_children(edges, at as int, k as nat)),
            decreases self.edges@[at as int]@.len() - k,
        {
            let child: NodeId = self.edges[at][k];
            assert(self.edges@[at as int]@[k as int].0 < at);
            self.push_preorder(child, order);
            k += 1;
            assert(edges[at as int][k - 1] == child);
            assert(order@ =~= before + (seq![node] + preorder_of_children(
                edges,
                at as int,
                k as nat,
            )));
        }
        assert(NodeId(node.0 as int as u32) == node);
        assert(order@ =~= before + preorder_of(edges, node.0 as int));
    }
}

impl<N, L> Default for GenericDag<N, L> {
    fn default() -> (r: Self)
        ensures
            r.wf(),
            r.dag().nodes.len() == 0,
    {
        GenericDag::new()
    }
}

impl<N, L> Dag for GenericDag<N, L> {
    type Node = N;

    type Leaf = L;

    closed spec fn dag(&self) -> DagView<N, L> {
        DagView {
            nodes: self.nodes@,
            edges: self.edge_lists(),
            leaves: self.data@,
            ops: self.original_ops@,
            types: self.actual_types@,
        }
    }

    closed spec fn wf(&self) -> bool {
        self.shaped()
    }

    proof fn nodes_are_whole(&self) {
    }

    fn len(&self) -> (n: usize) {
        self.nodes.len()
    }

    fn get_node(&self, id: NodeId) -> (n: &N) {
        &self.nodes[id.index()]
    }

    fn get_leaf_data(&self, id: NodeId) -> (d: Option<&L>) {
        self.data[id.index()].as_ref()
    }

    fn get_original_op(&self, id: NodeId) -> (op: Option<OpId>) {
        self.original_ops[id.index()]
    }

    fn get_actual_type(&self, id: NodeId) -> (ty: Option<TypeId>) {
        self.actual_types[id.index()]
    }

    fn root(&self) -> (r: Option<NodeId>) {
        let n: usize = self.nodes.len();
        if n == 0 {
            None
        } else {
            Some(NodeId::from_index(n - 1))
        }
    }

    fn children(&self, id: NodeId) -> (c: Vec<NodeId>) {
        crate::ir::copy_list(&self.edges[id.index()])
    }

    fn postorder(&self, start: NodeId) -> (order: Vec<NodeId>) {
        let ghost edges = self.edge_lists();
        let ghost root = start.0 as int;
        let mut order: Vec<NodeId> = Vec::new();
        let mut i: u64 = 0;
        assert(order@ + postorder_between(edges, root, 0) =~= postorder_between(edges, root, 0));
        while i <= start.0 as u64
            invariant
                self.shaped(),
                edges == self.edge_lists(),
                root == start.0,
                start.0 < self.nodes@.len(),
                i <= start.0 + 1,
                order@ + postorder_between(edges, root, i as int) == postorder_between(
                    edges,
                    root,
                    0,
                ),
            decreases start.0 + 1 - i,
        {
            let candidate = NodeId(i as u32);
            let ghost so_far = order@;
            if self.contains_descendant(start, candidate) {
                order.push(candidate);
                assert(NodeId(i as int as u32) == candidate);
                assert(so_far + (seq![candidate] + postorder_between(edges, root, i + 1))
                    =~= order@ + postorder_between(edges, root, i + 1));
            }
            i += 1;
        }
        assert(order@ =~= postorder_between(edges, root, 0));
        order
    }

    fn preorder(&self, start: NodeId) -> (order: Vec<NodeId>) {
        let mut order: Vec<NodeId> = Vec::new();
        self.push_preorder(start, &mut order);
        assert(order@ =~= preorder_of(self.edge_lists(), start.0 as int));
        order
    }
}

impl<N, L> MutDag for GenericDag<N, L> {
    fn add_node(&mut self, n: N) -> (id: NodeId) {
        let ghost before = self.edge_lists();
        let id = NodeId::from_index(self.nodes.len());
        self.nodes.push(n);
        self.edges.push(Vec::new());
        self.data.push(None);
        self.original_ops.push(None);
        self.actual_types.push(None);
        proof {
            assert(self.edge_lists() =~= before.push(Seq::empty()));
            assert forall|i: int, k: int|
                0 <= i < self.edges@.len() && 0 <= k < self.edges@[i]@.len() implies (
            #[trigger] self.edges@[i]@[k]).0 < i by {
                assert(old(self).edges@[i]@[k].0 < i);
            }
        }
        id
    }

    fn add_edge(&mut self, from: NodeId, to: NodeId) {
        let ghost before = self.edges@;
        let ghost lists = self.edge_lists();
        let at: usize = from.index();
        let mut list = crate::ir::copy_list(&self.edges[at]);
        list.push(to);
        self.edges.set(at, list);
        proof {
            assert(lists[at as int] == before[at as int]@);
            assert(self.edge_lists() =~= lists.update(at as int, lists[at as int].push(to)));
            assert forall|i: int, k: int|
                0 <= i < self.edges@.len() && 0 <= k < self.edges@[i]@.len() implies (
            #[trigger] self.edges@[i]@[k]).0 < i by {
                if i != at || k < before[i]@.len() {
                    assert(self.edges@[i]@[k] == before[i]@[k]);
                }
            }
        }
    }

    fn set_leaf_data(&mut self, n: NodeId, d: L) {
        let ghost lists = self.edge_lists();
        self.data.set(n.index(), Some(d));
        assert(self.edge_lists() =~= lists);
    }

    fn set_original_op(&mut self, n: NodeId, op: OpId) {
        let ghost lists = self.edge_lists();
        self.original_ops.set(n.index(), Some(op));
        assert(self.edge_lists() =~= lists);
    }

    fn set_actual_type(&mut self, n: NodeId, ty: TypeId) {
        let ghost lists = self.edge_lists();
        self.actual_types.set(n.index(), Some(ty));
        assert(self.edge_lists() =~= lists);
    }
}

} // verus!

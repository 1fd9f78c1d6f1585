//! What an operation computes, as a graph over the values it takes.
use vstd::prelude::*;
use crate::graph::DagView;
use crate::graph::MutDag;
use crate::graph::NodeId;

verus! {

/// What a node of a semantic graph stands for. Of the ten comparisons only six
/// appear: the others are these with their operands exchanged.
#[derive(Debug, Clone, Copy, PartialEq, Eq, Structural)]
pub enum SymKind {
    /// An operand of the operation, by position.
    Symbol,
    /// A known integer.
    Constant,
    Eq,
    Ne,
    Lt,
    Ge,
    ULt,
    UGe,
    /// Bits read as a value of another type.
    Bitcast,
    And,
    Xor,
}

/// What a leaf of a semantic graph carries.
#[derive(Debug, Clone, Copy, PartialEq, Eq, Structural)]
pub enum SymPayload {
    /// The position of the operand a symbol stands for.
    SymbolId(u32),
    /// A constant of a width in bits.
    Int(u32, u64),
}

impl SymKind {
    /// Whether a comparison of `a` with `b` holds. The numbers are those the
    /// operands stand for, read signed or unsigned as the comparison does.
    pub open spec fn holds(self, a: int, b: int) -> bool {
        match self {
            SymKind::Eq => a == b,
            SymKind::Ne => a != b,
            SymKind::Lt | SymKind::ULt => a < b,
            SymKind::Ge | SymKind::UGe => a >= b,
            _ => false,
        }
    }
}

/// A graph with one more leaf.
pub open spec fn with_leaf(
    g: DagView<SymKind, SymPayload>,
    kind: SymKind,
    payload: SymPayload,
) -> DagView<SymKind, SymPayload> {
    DagView {
        nodes: g.nodes.push(kind),
        edges: g.edges.push(Seq::empty()),
        leaves: g.leaves.push(Some(payload)),
        ops: g.ops.push(None),
        types: g.types.push(None),
    }
}

/// A graph with one more node, which points to `first` and then `second`.
pub open spec fn with_pair(
    g: DagView<SymKind, SymPayload>,
    kind: SymKind,
    first: NodeId,
    second: NodeId,
) -> DagView<SymKind, SymPayload> {
    DagView {
        nodes: g.nodes.push(kind),
        edges: g.edges.push(seq![first, second]),
        leaves: g.leaves.push(None),
        ops: g.ops.push(None),
        types: g.types.push(None),
    }
}

/// A graph with one more node, which points to `only`.
pub open spec fn with_single(
    g: DagView<SymKind, SymPayload>,
    kind: SymKind,
    only: NodeId,
) -> DagView<SymKind, SymPayload> {
    DagView {
        nodes: g.nodes.push(kind),
        edges: g.edges.push(seq![only]),
        leaves: g.leaves.push(None),
        ops: g.ops.push(None),
        types: g.types.push(None),
    }
}

/// Adds a node that points to `only`.
pub fn add_single<G: MutDag<Node = SymKind, Leaf = SymPayload>>(
    g: &mut G,
    kind: SymKind,
    only: NodeId,
) -> (id: NodeId)
    requires
        old(g).wf(),
        old(g).dag().nodes.len() < u32::MAX,
        only.0 < old(g).dag().nodes.len(),
    ensures
        final(g).wf(),
        id.0 == old(g).dag().nodes.len(),
        final(g).dag() == with_single(old(g).dag(), kind, only),
{
    proof {
        g.nodes_are_whole();
    }
    let ghost before = g.dag();
    let id = g.add_node(kind);
    g.add_edge(id, only);
    proof {
        assert(Seq::<NodeId>::empty().push(only) =~= seq![only]);
        assert(g.dag().edges =~= before.edges.push(seq![only]));
    }
    id
}

/// Adds a node that points to `first` and then `second`.
pub fn add_pair<G: MutDag<Node = SymKind, Leaf = SymPayload>>(
    g: &mut G,
    kind: SymKind,
    first: NodeId,
    second: NodeId,
) -> (id: NodeId)
    requires
        old(g).wf(),
        old(g).dag().nodes.len() < u32::MAX,
        first.0 < old(g).dag().nodes.len(),
        second.0 < old(g).dag().nodes.len(),
    ensures
        final(g).wf(),
        id.0 == old(g).dag().nodes.len(),
        final(g).dag() == with_pair(old(g).dag(), kind, first, second),
{
    proof {
        g.nodes_are_whole();
    }
    let ghost before = g.dag();
    let id = g.add_node(kind);
    g.add_edge(id, first);
    g.add_edge(id, second);
    proof {
        assert(Seq::<NodeId>::empty().push(first).push(second) =~= seq![first, second]);
        assert(g.dag().edges =~= before.edges.push(seq![first, second]));
    }
    id
}

/// Adds a leaf that carries `payload`.
pub fn add_leaf<G: MutDag<Node = SymKind, Leaf = SymPayload>>(
    g: &mut G,
    kind: SymKind,
    payload: SymPayload,
) -> (id: NodeId)
    requires
        old(g).wf(),
        old(g).dag().nodes.len() < u32::MAX,
    ensures
        final(g).wf(),
        id.0 == old(g).dag().nodes.len(),
        final(g).dag() == with_leaf(old(g).dag(), kind, payload),
{
    proof {
        g.nodes_are_whole();
    }
    let ghost before = g.dag();
    let id = g.add_node(kind);
    g.set_leaf_data(id, payload);
    assert(g.dag().leaves =~= before.leaves.push(Some(payload)));
    id
}

/// A graph with a comparison of the first two operands, exchanged where `swap`
/// says so.
pub open spec fn with_comparison(
    g: DagView<SymKind, SymPayload>,
    kind: SymKind,
    swap: bool,
) -> DagView<SymKind, SymPayload> {
    let n = g.nodes.len();
    let first = if swap {
        1u32
    } else {
        0u32
    };
    let second = if swap {
        0u32
    } else {
        1u32
    };
    with_pair(
        with_leaf(
            with_leaf(g, SymKind::Symbol, SymPayload::SymbolId(first)),
            SymKind::Symbol,
            SymPayload::SymbolId(second),
        ),
        kind,
        NodeId(n as u32),
        NodeId((n + 1) as u32),
    )
}

/// Adds a comparison of the first two operands, exchanged where `swap` says so.
pub fn add_comparison<G: MutDag<Node = SymKind, Leaf = SymPayload>>(
    g: &mut G,
    kind: SymKind,
    swap: bool,
) -> (id: NodeId)
    requires
        old(g).wf(),
        old(g).dag().nodes.len() + 3 <= u32::MAX,
    ensures
        final(g).wf(),
        id.0 == old(g).dag().nodes.len() + 2,
        final(g).dag() == with_comparison(old(g).dag(), kind, swap),
{
    let (first, second) = if swap {
        (1u32, 0u32)
    } else {
        (0u32, 1u32)
    };
    let lhs = add_leaf(g, SymKind::Symbol, SymPayload::SymbolId(first));
    let rhs = add_leaf(g, SymKind::Symbol, SymPayload::SymbolId(second));
    add_pair(g, kind, lhs, rhs)
}

} // verus!

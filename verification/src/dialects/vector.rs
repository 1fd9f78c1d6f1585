//! The `vector` dialect: a small, target-independent vocabulary for SIMD-style
//! arithmetic. A vector type is either statically sized (`vec<8xi32>`) or
//! dynamically sized (`vec<i32>`); a dynamic vector's elementwise operation takes
//! a vector-length operand bounding the active lanes, while a static one reads
//! its lane count straight from the type.
use vstd::prelude::*;
use crate::context::Context;
use crate::context::ContextView;
use crate::context::edits::first_position;
use crate::graph::MutDag;
use crate::graph::NodeId;
use crate::ids::OpId;
use crate::ids::TypeId;
use crate::sem::add_leaf;
use crate::sem::with_leaf;
use crate::sem::SymKind;
use crate::sem::SymPayload;
use crate::ty::interned;
use crate::ty::Type;
use crate::ty::TypeView;
use crate::ty::VectorType;

verus! {

impl VectorType {
    /// A vector of `element`s, of `length` lanes where it is static.
    pub fn new(context: &mut Context, element: TypeId, length: Option<u32>) -> (id: TypeId)
        requires
            old(context).inv(),
            old(context)@.types.len() < u32::MAX,
            element.0 < old(context)@.types.len(),
        ensures
            final(context).inv(),
            final(context)@ == (ContextView {
                types: interned(old(context)@.types, TypeView::Vector(element, length)),
                ..old(context)@
            }),
            id.0 < final(context)@.types.len(),
            final(context)@.types[id.0 as int] == TypeView::Vector(element, length),
            first_position(final(context)@.types, TypeView::Vector(element, length)) == Some(
                id.0 as int,
            ),
    {
        context.get_type_id(Type::Vector(VectorType { element, length }))
    }

    /// A statically sized vector of `length` lanes.
    pub fn fixed(context: &mut Context, element: TypeId, length: u32) -> (id: TypeId)
        requires
            old(context).inv(),
            old(context)@.types.len() < u32::MAX,
            element.0 < old(context)@.types.len(),
        ensures
            final(context).inv(),
            final(context)@ == (ContextView {
                types: interned(old(context)@.types, TypeView::Vector(element, Some(length))),
                ..old(context)@
            }),
            id.0 < final(context)@.types.len(),
            final(context)@.types[id.0 as int] == TypeView::Vector(element, Some(length)),
    {
        VectorType::new(context, element, Some(length))
    }

    /// A dynamically sized vector whose lane count is unknown at compile time.
    pub fn dynamic(context: &mut Context, element: TypeId) -> (id: TypeId)
        requires
            old(context).inv(),
            old(context)@.types.len() < u32::MAX,
            element.0 < old(context)@.types.len(),
        ensures
            final(context).inv(),
            final(context)@ == (ContextView {
                types: interned(old(context)@.types, TypeView::Vector(element, None)),
                ..old(context)@
            }),
            id.0 < final(context)@.types.len(),
            final(context)@.types[id.0 as int] == TypeView::Vector(element, None),
    {
        VectorType::new(context, element, None)
    }

    /// The type of one lane.
    pub fn element(&self) -> (id: TypeId)
        ensures
            id == self.element,
    {
        self.element
    }
}

impl ContextView {
    /// The leaf that names how many lanes of a vector operation are active: the
    /// length operand where it has one, else the length of its result's type.
    pub open spec fn lane_leaf(self, op: OpId) -> (SymKind, SymPayload) {
        if self.ir.op(op)->0.operands.len() > 2 {
            (SymKind::Symbol, SymPayload::SymbolId(2))
        } else {
            (
                SymKind::Constant,
                SymPayload::Int(
                    32,
                    match self.types[self.type_of(self.ir.op(op)->0.results[0]).0 as int] {
                        TypeView::Vector(_, Some(n)) => n as u64,
                        _ => 0,
                    },
                ),
            )
        }
    }

    /// How wide one lane of a vector operation's result is, zero where it is no
    /// vector of integers.
    pub open spec fn lane_width(self, op: OpId) -> u64 {
        match self.types[self.type_of(self.ir.op(op)->0.results[0]).0 as int] {
            TypeView::Vector(element, _) => match self.types[element.0 as int] {
                TypeView::Integer(width) => width as u64,
                _ => 0,
            },
            _ => 0,
        }
    }

    /// Whether a vector operation has a typed result.
    pub open spec fn vector_wf(self, op: OpId) -> bool {
        &&& self.ir.op(op) is Some
        &&& self.ir.op(op)->0.results.len() > 0
        &&& self.values_typed(self.ir.op(op)->0.results)
    }
}

/// Adds the active lane count each split of an operand's bits cuts it into: a
/// fixed vector takes it from the result type's static length, a scalable vector
/// from the dynamic length operand.
pub fn vlen_node<G: MutDag<Node = SymKind, Leaf = SymPayload>>(
    context: &Context,
    op: OpId,
    g: &mut G,
) -> (id: NodeId)
    requires
        context.inv(),
        context@.vector_wf(op),
        old(g).wf(),
        old(g).dag().nodes.len() < u32::MAX,
    ensures
        final(g).wf(),
        id.0 == old(g).dag().nodes.len(),
        ({
            let (kind, payload) = context@.lane_leaf(op);
            final(g).dag() == with_leaf(old(g).dag(), kind, payload)
        }),
{
    if context.operands_of(op).len() > 2 {
        return add_leaf(g, SymKind::Symbol, SymPayload::SymbolId(2));
    }
    let result = context.results_of(op)[0];
    assert(context@.value_sound(context@.ir.op(op)->0.results[0]));
    let length: u64 = match context.get_type_data(context.get_value(result).ty) {
        Type::Vector(t) => match t.length {
            Some(n) => n as u64,
            None => 0,
        },
        _ => 0,
    };
    add_leaf(g, SymKind::Constant, SymPayload::Int(32, length))
}

/// Adds the lane width: the result type's element width, a constant for fixed
/// and scalable vectors alike.
pub fn sew_node<G: MutDag<Node = SymKind, Leaf = SymPayload>>(
    context: &Context,
    op: OpId,
    g: &mut G,
) -> (id: NodeId)
    requires
        context.inv(),
        context@.vector_wf(op),
        old(g).wf(),
        old(g).dag().nodes.len() < u32::MAX,
    ensures
        final(g).wf(),
        id.0 == old(g).dag().nodes.len(),
        final(g).dag() == with_leaf(
            old(g).dag(),
            SymKind::Constant,
            SymPayload::Int(32, context@.lane_width(op)),
        ),
{
    let result = context.results_of(op)[0];
    assert(context@.value_sound(context@.ir.op(op)->0.results[0]));
    let ty = context.get_value(result).ty;
    proof {
        context.inv_wf();
        assert(context@.types[ty.0 as int].made_below(ty.0 as int));
    }
    let width: u64 = match context.get_type_data(ty) {
        Type::Vector(t) => match context.get_type_data(t.element) {
            Type::Integer(i) => i.width as u64,
            _ => 0,
        },
        _ => 0,
    };
    add_leaf(g, SymKind::Constant, SymPayload::Int(32, width))
}

} // verus!

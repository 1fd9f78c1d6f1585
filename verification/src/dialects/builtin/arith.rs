//! Integer arithmetic, comparison and conversion.
use vstd::prelude::*;
use crate::attributes::AttrView;
use crate::attributes::AttributeValue;
use crate::attributes::Predicate;
use crate::context::Context;
use crate::context::ContextView;
use crate::context::OpHandle;
use crate::error::invalid;
use crate::error::verdict;
use crate::error::Error;
use crate::graph::DagView;
use crate::graph::MutDag;
use crate::graph::NodeId;
use crate::ids::OpId;
use crate::ids::TypeId;
use crate::ids::ValueId;
use crate::interfaces::Commutative;
use crate::interfaces::ConstantLike;
use crate::interfaces::OpCost;
use crate::layout::DataLayout;
use crate::sem::add_comparison;
use crate::sem::with_comparison;
use crate::sem::SymKind;
use crate::sem::SymPayload;
use crate::ty::float_bits;
use crate::ty::Type;
use crate::ty::TypeView;

verus! {

/// A known integer.
#[derive(Debug, Clone, Copy)]
pub struct ConstantOp(pub OpHandle);

/// A comparison of two integers.
#[derive(Debug, Clone, Copy)]
pub struct CmpIOp(pub OpHandle);

/// A sum of integers.
#[derive(Debug, Clone, Copy)]
pub struct AddIOp(pub OpHandle);

/// A product of integers.
#[derive(Debug, Clone, Copy)]
pub struct MulIOp(pub OpHandle);

impl Commutative for AddIOp {

}

impl Commutative for MulIOp {

}

/// The bits two integers have in common.
#[derive(Debug, Clone, Copy)]
pub struct AndIOp(pub OpHandle);

/// The bits either of two integers has.
#[derive(Debug, Clone, Copy)]
pub struct OrIOp(pub OpHandle);

/// The bits one of two integers has and the other has not.
#[derive(Debug, Clone, Copy)]
pub struct XOrIOp(pub OpHandle);

impl Commutative for AndIOp {

}

impl Commutative for OrIOp {

}

impl Commutative for XOrIOp {

}

/// A product costs as much as four sums.
impl OpCost for MulIOp {
    fn cost(&self) -> (n: u32)
        ensures
            n == 4,
    {
        4
    }
}

/// The bits of a scalar read as another scalar of the same width.
#[derive(Debug, Clone, Copy)]
pub struct BitcastOp(pub OpHandle);

impl ContextView {
    /// The integer a constant operation holds, and its width.
    pub open spec fn constant_value(self, op: OpId) -> (i64, u32) {
        (
            match self.attr(op, "value"@) {
                Some(AttrView::Int(n)) => n as i64,
                _ => 0,
            },
            match self.types[self.type_of(self.ir.op(op)->0.results[0]).0 as int] {
                TypeView::Integer(width) => width,
                _ => 64,
            },
        )
    }
}

impl ConstantLike for ConstantOp {
    open spec fn names_constant(&self, context: ContextView) -> bool {
        &&& context.ir.op(self.0.id) is Some
        &&& context.ir.op(self.0.id)->0.results.len() > 0
        &&& context.values_typed(context.ir.op(self.0.id)->0.results)
    }

    open spec fn constant(&self, context: ContextView) -> (i64, u32) {
        context.constant_value(self.0.id)
    }

    fn constant_value(&self, context: &Context) -> (r: (i64, u32)) {
        let result = context.results_of(self.0.id)[0];
        assert(context@.value_sound(context@.ir.op(self.0.id)->0.results[0]));
        let n: i64 = match context.with_attr(self.0.id, "value") {
            Some(AttributeValue::Int(n)) => *n,
            _ => 0,
        };
        let width: u32 = match context.get_type_data(context.get_value(result).ty) {
            Type::Integer(t) => t.width,
            _ => 64,
        };
        (n, width)
    }
}

/// The comparison `predicate` in canonical form, and whether its operands are
/// exchanged there: `sgt`, `sle`, `ugt` and `ule` become the swapped-operand
/// comparison, so only six kinds ever appear in a graph. `unsigned_only` offers
/// nothing for a signed comparison, which an address ordering has no meaning
/// for.
pub open spec fn canonical_comparison(predicate: Predicate, unsigned_only: bool) -> Option<
    (SymKind, bool),
> {
    match predicate {
        Predicate::Eq => Some((SymKind::Eq, false)),
        Predicate::Ne => Some((SymKind::Ne, false)),
        Predicate::Slt => if unsigned_only {
            None
        } else {
            Some((SymKind::Lt, false))
        },
        Predicate::Sgt => if unsigned_only {
            None
        } else {
            Some((SymKind::Lt, true))
        },
        Predicate::Sge => if unsigned_only {
            None
        } else {
            Some((SymKind::Ge, false))
        },
        Predicate::Sle => if unsigned_only {
            None
        } else {
            Some((SymKind::Ge, true))
        },
        Predicate::Ult => Some((SymKind::ULt, false)),
        Predicate::Ugt => Some((SymKind::ULt, true)),
        Predicate::Uge => Some((SymKind::UGe, false)),
        Predicate::Ule => Some((SymKind::UGe, true)),
    }
}

/// The canonical form of a comparison says what the comparison does.
pub proof fn canonical_comparison_says_the_same(
    predicate: Predicate,
    unsigned_only: bool,
    a: int,
    b: int,
)
    ensures
        match canonical_comparison(predicate, unsigned_only) {
            Some((kind, swap)) => predicate.holds(a, b) == if swap {
                kind.holds(b, a)
            } else {
                kind.holds(a, b)
            },
            None => unsigned_only,
        },
{
}

/// Whether `after` and `node` are what adding `comparison` to `before` gives.
pub open spec fn compared(
    before: DagView<SymKind, SymPayload>,
    comparison: Option<(SymKind, bool)>,
    after: DagView<SymKind, SymPayload>,
    node: Option<NodeId>,
) -> bool {
    match comparison {
        Some((kind, swap)) => {
            &&& after == with_comparison(before, kind, swap)
            &&& node == Some(NodeId((before.nodes.len() + 2) as u32))
        },
        None => node is None && after == before,
    }
}

/// Adds the comparison of the first two operands in canonical form.
pub fn compare_expr<G: MutDag<Node = SymKind, Leaf = SymPayload>>(
    g: &mut G,
    predicate: Predicate,
    unsigned_only: bool,
) -> (r: Option<NodeId>)
    requires
        old(g).wf(),
        old(g).dag().nodes.len() + 3 <= u32::MAX,
    ensures
        final(g).wf(),
        compared(
            old(g).dag(),
            canonical_comparison(predicate, unsigned_only),
            final(g).dag(),
            r,
        ),
{
    let swap = match predicate {
        Predicate::Sgt | Predicate::Sle | Predicate::Ugt | Predicate::Ule => true,
        _ => false,
    };
    let kind = match if swap {
        predicate.swapped()
    } else {
        predicate
    } {
        Predicate::Eq => SymKind::Eq,
        Predicate::Ne => SymKind::Ne,
        Predicate::Slt if !unsigned_only => SymKind::Lt,
        Predicate::Sge if !unsigned_only => SymKind::Ge,
        Predicate::Ult => SymKind::ULt,
        Predicate::Uge => SymKind::UGe,
        _ => {
            return None;
        },
    };
    Some(add_comparison(g, kind, swap))
}

impl CmpIOp {
    /// Adds what the comparison computes, where it names a predicate.
    pub fn cmp_expr<G: MutDag<Node = SymKind, Leaf = SymPayload>>(
        &self,
        context: &Context,
        g: &mut G,
    ) -> (r: Option<NodeId>)
        requires
            context.inv(),
            old(g).wf(),
            old(g).dag().nodes.len() + 3 <= u32::MAX,
                ensures
            final(g).wf(),
            compared(
                old(g).dag(),
                match context@.attr(self.0.id, "predicate"@) {
                    Some(AttrView::Predicate(p)) => canonical_comparison(p, false),
                    _ => None,
                },
                final(g).dag(),
                r,
            ),
    {
        match context.with_attr(self.0.id, "predicate") {
            Some(AttributeValue::Predicate(p)) => compare_expr(g, *p, false),
            _ => None,
        }
    }
}

impl ContextView {
    /// How wide a scalar type is in bits, with an index as wide as `index` says.
    pub open spec fn scalar_width(self, ty: TypeId, index: Option<u32>) -> Option<nat> {
        match self.types[ty.0 as int] {
            TypeView::Integer(width) => Some(width as nat),
            TypeView::Float(exponent, mantissa) => Some(float_bits(exponent, mantissa)),
            TypeView::Index => match index {
                Some(width) => Some(width as nat),
                None => None,
            },
            _ => None,
        }
    }

    /// Why a cast of bits is wrong, where an index is as wide as `index` says.
    pub open spec fn bitcast_failure(self, op: OpId, index: Option<u32>) -> Option<Seq<char>> {
        let input = self.scalar_width(self.type_of(self.ir.op(op)->0.operands[0]), index);
        let result = self.scalar_width(self.type_of(self.ir.op(op)->0.results[0]), index);
        if input is None || result is None {
            Some("bitcast requires scalar integer, floating-point or index types"@)
        } else if input != result {
            Some("bitcast source and result widths must match"@)
        } else {
            None
        }
    }
}

fn scalar_width(context: &Context, value: ValueId, index: Option<u32>) -> (r: Option<u64>)
    requires
        context.inv(),
        context@.ir.value(value) is Some,
        context@.value_sound(value),
    ensures
        match r {
            Some(n) => context@.scalar_width(context@.type_of(value), index) == Some(n as nat),
            None => context@.scalar_width(context@.type_of(value), index) is None,
        },
{
    match context.get_type_data(context.get_value(value).ty) {
        Type::Integer(t) => Some(t.width as u64),
        Type::Float(t) => Some(t.bit_width()),
        Type::Index(_) => match index {
            Some(width) => Some(width as u64),
            None => None,
        },
        _ => None,
    }
}

impl BitcastOp {
    /// Checks that the cast is between scalars of one width. An index is a
    /// scalar too, but only the data layout in scope says how wide.
    pub fn verify_impl(&self, context: &Context, layout: Option<&DataLayout>) -> (r: Result<
        (),
        Error,
    >)
        requires
            context.inv(),
            context@.ir.op(self.0.id) is Some,
            context@.ir.op(self.0.id)->0.operands.len() > 0,
            context@.ir.op(self.0.id)->0.results.len() > 0,
            context@.values_typed(context@.ir.op(self.0.id)->0.operands),
            context@.values_typed(context@.ir.op(self.0.id)->0.results),
        ensures
            verdict(
                r,
                context@.bitcast_failure(
                    self.0.id,
                    match layout {
                        Some(l) => l.index_bits(),
                        None => None,
                    },
                ),
            ),
    {
        let index: Option<u32> = match layout {
            Some(l) => l.index_width(),
            None => None,
        };
        let input = context.operands_of(self.0.id)[0];
        let result = context.results_of(self.0.id)[0];
        assert(context@.value_sound(context@.ir.op(self.0.id)->0.operands[0]));
        assert(context@.value_sound(context@.ir.op(self.0.id)->0.results[0]));
        let (input, result) = match (
            scalar_width(context, input, index),
            scalar_width(context, result, index),
        ) {
            (Some(input), Some(result)) => (input, result),
            _ => {
                return Err(
                    invalid("bitcast requires scalar integer, floating-point or index types"),
                );
            },
        };
        if input != result {
            return Err(invalid("bitcast source and result widths must match"));
        }
        Ok(())
    }
}

} // verus!

//! Operations put in a block just before another: addresses, loads, stores and
//! calls, on one chain of memory states.
use vstd::prelude::*;
use crate::attributes::AttrView;
use crate::attributes::AttributeValue;
use crate::builder::BuilderView;
use crate::builder::OpBuilder;
use crate::context::edits::first_position;
use crate::context::edits::first_position_at;
use crate::context::edits::first_position_is_first;
use crate::context::edits::op_position;
use crate::context::Context;
use crate::context::ContextView;
use crate::ids::BlockId;
use crate::ids::OpId;
use crate::ids::TypeId;
use crate::ids::ValueId;
use crate::ty::interned;
use crate::ty::IntegerType;
use crate::ty::Type;
use crate::ty::TypeView;

verus! {

impl BuilderView {
    /// On the chain of memory states, where there is one: `state` is observed, and
    /// another is left.
    pub open spec fn threaded(self, state: Option<ValueId>) -> BuilderView {
        match state {
            Some(s) => BuilderView { dep_results: 1, ..self.with_deps(seq![s]) },
            None => self,
        }
    }
}

/// On the chain of memory states, where there is one: `state` is observed, and
/// another is left.
pub fn threaded(builder: OpBuilder, state: Option<ValueId>) -> (r: OpBuilder)
    ensures
        r@ == builder@.threaded(state),
{
    match state {
        Some(s) => {
            let deps = vec![s];
            assert(deps@ =~= seq![s]);
            let mut threaded = builder.dep_operands(deps);
            threaded.dep_results = 1;
            threaded
        },
        None => builder,
    }
}

impl ContextView {
    /// With the operation a builder describes in `block`, just before `op`, which
    /// it holds.
    pub open spec fn emitted(self, block: BlockId, op: OpId, b: BuilderView) -> ContextView {
        let built = b.built(self);
        built.with_inserted(block, built.position_in(block, op)->0, self.next_op())
    }

    /// With the type `ty` known.
    pub open spec fn with_type(self, ty: TypeView) -> ContextView {
        ContextView { types: interned(self.types, ty), ..self }
    }

    /// The id of a type this context knows.
    pub open spec fn known_type(self, ty: TypeView) -> TypeId {
        TypeId(first_position(self.types, ty)->0 as u32)
    }

    /// Whether operations can be put before `op`: `block` holds it, and it is an
    /// operation of the context.
    pub open spec fn takes_before(self, block: BlockId, op: OpId) -> bool {
        self.position_in(block, op) is Some && op.0 < self.ir.ops.now.len()
    }

    /// Whether `after` has at most `n` operations, values, types and names more.
    pub open spec fn grew(self, after: ContextView, n: nat) -> bool {
        &&& after.ir.ops.now.len() <= self.ir.ops.now.len() + n
        &&& after.ir.values.now.len() <= self.ir.values.now.len() + n
        &&& after.types.len() <= self.types.len() + n
        &&& after.names.len() <= self.names.len() + n
        &&& self.ir.ops.now.len() <= after.ir.ops.now.len()
        &&& self.ir.values.now.len() <= after.ir.values.now.len()
    }
}

/// Putting an operation anywhere in a block keeps where the others stand.
pub proof fn placing_keeps_positions(
    context: ContextView,
    b: BuilderView,
    into: BlockId,
    at: int,
    block: BlockId,
    op: OpId,
)
    requires
        context.takes_before(block, op),
        context.ir.ops.now.len() < u32::MAX,
        b.regions.len() == 0,
        context.ir.block(into) is Some ==> 0 <= at <= context.ir.block(into)->0.operations.len(),
    ensures
        b.built(context).takes_before(block, op),
        b.built(context).position_in(block, op) == context.position_in(block, op),
        b.built(context).with_inserted(into, at, context.next_op()).takes_before(block, op),
        ({
            let after = b.built(context).with_inserted(into, at, context.next_op());
            &&& after.ir.ops.now.len() == context.ir.ops.now.len() + 1
            &&& after.ir.values.now.len() == context.ir.values.now.len() + b.result_types.len()
                + b.dep_results
            &&& after.types == context.types
            &&& after.names.len() <= context.names.len() + 1
        }),
{
    b.building_keeps(context);
    let built = b.built(context);
    let new = context.next_op();
    let held = context.ir.block(block)->0.operations;
    first_position_is_first(held, op);
    let p = context.position_in(block, op)->0;
    assert(built.ir.block(block) == context.ir.block(block));
    let after = built.with_inserted(into, at, new);
    if into == block {
        let list = held.insert(at, new);
        assert(after.ir.block(block)->0.operations == list);
        let q = if at <= p {
            p + 1
        } else {
            p
        };
        assert(list[q] == op);
        assert forall|j: int| 0 <= j < q implies list[j] != op by {
            if j < at {
                assert(list[j] == held[j]);
            } else if j > at {
                assert(list[j] == held[j - 1]);
            }
        }
        first_position_at(list, op, q);
    } else {
        assert(after.ir.block(block) == context.ir.block(block));
    }
}

/// Puts the operation a builder describes in `block`, just before `op`, and hands
/// back the first value it was given.
pub fn emit(context: &mut Context, block: BlockId, op: OpId, builder: OpBuilder) -> (first: ValueId)
    requires
        old(context).inv(),
        old(context)@.takes_before(block, op),
        builder@.fits(old(context)@),
        builder@.regions.len() == 0,
        old(context)@.ir.values.now.len() < u32::MAX,
    ensures
        final(context).inv(),
        final(context)@ == old(context)@.emitted(block, op, builder@),
        final(context)@.takes_before(block, op),
        final(context)@.ir.ops.now.len() == old(context)@.ir.ops.now.len() + 1,
        final(context)@.ir.values.now.len() == old(context)@.ir.values.now.len()
            + builder@.result_types.len() + builder@.dep_results,
        final(context)@.types == old(context)@.types,
        final(context)@.names.len() <= old(context)@.names.len() + 1,
        first == old(context)@.next_value(),
{
    let ghost before = context@;
    let ghost b = builder@;
    let first = ValueId(context.value_count() as u32);
    proof {
        first_position_is_first(before.ir.block(block)->0.operations, op);
        placing_keeps_positions(before, b, block, before.position_in(block, op)->0, block, op);
        b.built_is_there(before);
    }
    let handle = builder.build(context);
    assert(context@.position_in(block, op) is Some);
    assert(context@.ir.block(block) is Some);
    let position: usize = op_position(&context.block_ref(block).operations, op).unwrap();
    context.insert_op(block, position, handle.id);
    first
}

/// The integer constant `n` of type `ty`.
pub open spec fn constant_view(n: i64, ty: TypeId) -> BuilderView {
    BuilderView::fresh("builtin"@, "constant"@).with_attr("value"@, AttrView::Int(n as int)).with_result(
        ty,
    )
}

/// The pointer `index` bytes beyond `base`.
pub open spec fn ptradd_view(base: ValueId, index: ValueId, ty: TypeId) -> BuilderView {
    BuilderView::fresh("ptr"@, "ptradd"@).with_group(seq![base]).with_group(
        seq![index],
    ).with_result(ty)
}

/// The value `value` with zeros above it, of type `ty`.
pub open spec fn extui_view(value: ValueId, ty: TypeId) -> BuilderView {
    BuilderView::fresh("builtin"@, "extui"@).with_group(seq![value]).with_result(ty)
}

/// The product of `a` and `b`, of type `ty`.
pub open spec fn muli_view(a: ValueId, b: ValueId, ty: TypeId) -> BuilderView {
    BuilderView::fresh("builtin"@, "muli"@).with_group(seq![a]).with_group(seq![b]).with_result(ty)
}

/// What is read at `ptr` as a value of type `ty`.
pub open spec fn load_view(ptr: ValueId, ty: TypeId, state: Option<ValueId>) -> BuilderView {
    BuilderView::fresh("ptr"@, "load"@).with_group(seq![ptr]).with_result(ty).threaded(state)
}

/// The writing of `value` at `ptr`.
pub open spec fn store_view(value: ValueId, ptr: ValueId, state: Option<ValueId>) -> BuilderView {
    BuilderView::fresh("ptr"@, "store"@).with_group(seq![value]).with_group(seq![ptr]).threaded(
        state,
    )
}

/// Where an emission stands: the context, and the memory state that is current.
pub ghost struct Emission {
    pub context: ContextView,
    pub state: Option<ValueId>,
}

impl ContextView {
    /// The pointer `offset` bytes beyond `base`, a pointer of type `ty`, made just
    /// before `op`: `base` itself where that is no distance.
    pub open spec fn address(
        self,
        block: BlockId,
        op: OpId,
        base: ValueId,
        ty: TypeId,
        offset: u64,
    ) -> (ContextView, ValueId) {
        if offset == 0 {
            (self, base)
        } else {
            let typed = self.with_type(TypeView::Integer(64));
            let indexed = typed.emitted(
                block,
                op,
                constant_view(offset as i64, typed.known_type(TypeView::Integer(64))),
            );
            (
                indexed.emitted(block, op, ptradd_view(base, typed.next_value(), ty)),
                indexed.next_value(),
            )
        }
    }
}

impl Emission {
    /// After `value` was written at `ptr`, just before `op`.
    pub open spec fn stored(self, block: BlockId, op: OpId, ptr: ValueId, value: ValueId) -> Emission {
        Emission {
            context: self.context.emitted(block, op, store_view(value, ptr, self.state)),
            state: match self.state {
                Some(_) => Some(self.context.next_value()),
                None => None,
            },
        }
    }
}

/// An integer type of `width` bits, interned.
pub fn integer_type(context: &mut Context, width: u32) -> (ty: TypeId)
    requires
        old(context).inv(),
        old(context)@.types.len() < u32::MAX,
    ensures
        final(context).inv(),
        final(context)@ == old(context)@.with_type(TypeView::Integer(width)),
        ty == final(context)@.known_type(TypeView::Integer(width)),
        final(context)@.types.len() <= old(context)@.types.len() + 1,
{
    context.get_type_id(Type::Integer(IntegerType { width }))
}

/// The pointer `offset` bytes beyond `base`, made just before `op`.
pub fn address(
    context: &mut Context,
    block: BlockId,
    op: OpId,
    base: ValueId,
    ty: TypeId,
    offset: u64,
) -> (r: ValueId)
    requires
        old(context).inv(),
        old(context)@.takes_before(block, op),
        old(context)@.has_room(3),
        base.0 < old(context)@.ir.values.now.len(),
    ensures
        final(context).inv(),
        (final(context)@, r) == old(context)@.address(block, op, base, ty, offset),
        final(context)@.takes_before(block, op),
        old(context)@.grew(final(context)@, 2),
        r.0 < final(context)@.ir.values.now.len(),
{
    if offset == 0 {
        return base;
    }
    let index_ty = integer_type(context, 64);
    let index = OpBuilder::new("builtin", "constant").attr(
        "value",
        AttributeValue::Int(offset as i64),
    ).result_type(index_ty);
    let index = emit(context, block, op, index);
    let sum = OpBuilder::new("ptr", "ptradd").operand(base).operand(index).result_type(ty);
    emit(context, block, op, sum)
}

/// Writes `value` at `ptr`, just before `op`, and hands back the memory state that
/// leaves.
pub fn store(
    context: &mut Context,
    block: BlockId,
    op: OpId,
    ptr: ValueId,
    value: ValueId,
    state: Option<ValueId>,
) -> (r: Option<ValueId>)
    requires
        old(context).inv(),
        old(context)@.takes_before(block, op),
        old(context)@.has_room(2),
        ptr.0 < old(context)@.ir.values.now.len(),
        value.0 < old(context)@.ir.values.now.len(),
        state matches Some(s) ==> s.0 < old(context)@.ir.values.now.len(),
    ensures
        final(context).inv(),
        (Emission { context: final(context)@, state: r }) == (Emission {
            context: old(context)@,
            state,
        }).stored(block, op, ptr, value),
        final(context)@.takes_before(block, op),
        old(context)@.grew(final(context)@, 1),
        r matches Some(s) ==> s.0 < final(context)@.ir.values.now.len(),
{
    let built = threaded(OpBuilder::new("ptr", "store").operand(value).operand(ptr), state);
    let left = emit(context, block, op, built);
    match state {
        Some(_) => Some(left),
        None => None,
    }
}

} // verus!

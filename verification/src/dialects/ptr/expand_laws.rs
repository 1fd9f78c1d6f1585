//! What the expansion of a memory intrinsic emits, operation by operation: which
//! addresses are read and written, with what, in which order.
use vstd::prelude::*;
use crate::attributes::dict_lookup;
use crate::attributes::AttrView;
use crate::backend::instructions::PassError;
use crate::backend::instructions::PassErrorView;
use crate::builder::minting_counts;
use crate::builder::minting_states_counts;
use crate::builder::with_values;
use crate::builder::BuilderView;
use crate::context::edits::first_position_at;
use crate::context::edits::first_position_is_first;
use crate::context::edits::results_defined;
use crate::context::ContextView;
use crate::dialects::ptr::emit::constant_view;
use crate::dialects::ptr::emit::extui_view;
use crate::dialects::ptr::emit::load_view;
use crate::dialects::ptr::emit::muli_view;
use crate::dialects::ptr::emit::placing_keeps_positions;
use crate::dialects::ptr::emit::ptradd_view;
use crate::dialects::ptr::emit::store_view;
use crate::dialects::ptr::emit::Emission;
use crate::dialects::ptr::expand::call_view;
use crate::dialects::ptr::expand::finished;
use crate::dialects::ptr::expand::library_called;
use crate::dialects::ptr::expand::looking_up_keeps;
use crate::dialects::ptr::expand::Site;
use crate::dialects::ptr::intrinsics::covers_exactly;
use crate::dialects::ptr::intrinsics::inline_accesses_are_exact;
use crate::dialects::ptr::intrinsics::inline_plan;
use crate::dialects::ptr::intrinsics::repeated;
use crate::dialects::ptr::intrinsics::target_failure;
use crate::dialects::ptr::intrinsics::widths_of;
use crate::dialects::ptr::intrinsics::Chunk;
use crate::dialects::ptr::intrinsics::Widths;
use crate::dialects::ptr::library::lambda_of;
use crate::dialects::ptr::MemcpyOp;
use crate::dialects::ptr::MemsetOp;
use crate::ids::BlockId;
use crate::ids::OpId;
use crate::ids::TypeId;
use crate::ids::ValueId;
use crate::ir::IrView;
use crate::operation::minted_ids;
use crate::operation::with_op_name;
use crate::operation::with_states;
use crate::ty::TypeView;

verus! {

/// Whether `b` has all `a` has: its operations as they were, its names and types
/// under their numbers, and its values with their types.
#[verifier::opaque]
pub open spec fn grown(a: ContextView, b: ContextView) -> bool {
    &&& a.ir.ops.now.len() <= b.ir.ops.now.len()
    &&& a.ir.values.now.len() <= b.ir.values.now.len()
    &&& a.names.len() <= b.names.len()
    &&& a.types.len() <= b.types.len()
    &&& forall|id: OpId| id.0 < a.ir.ops.now.len() ==> #[trigger] b.ir.op(id) == a.ir.op(id)
    &&& forall|i: int| 0 <= i < a.names.len() ==> #[trigger] b.names[i] == a.names[i]
    &&& forall|i: int| 0 <= i < a.types.len() ==> #[trigger] b.types[i] == a.types[i]
    &&& forall|v: ValueId|
        v.0 < a.ir.values.now.len() ==> ((#[trigger] b.ir.value(v)) is Some <==> a.ir.value(
            v,
        ) is Some) && b.type_of(v) == a.type_of(v)
}

/// Whether the operation `id` is there, is called `dialect.name`, and has these
/// operands and results.
pub open spec fn stands(
    context: ContextView,
    id: int,
    dialect: Seq<char>,
    name: Seq<char>,
    operands: Seq<ValueId>,
    results: Seq<ValueId>,
) -> bool {
    let op = OpId(id as u32);
    &&& 0 <= id < context.ir.ops.now.len()
    &&& context.ir.op(op) is Some
    &&& context.ir.op(op)->0.name.0 < context.names.len()
    &&& context.identity(op) == (dialect, name)
    &&& context.ir.op(op)->0.operands == operands
    &&& context.ir.op(op)->0.results == results
}

proof fn standing_stays(
    a: ContextView,
    b: ContextView,
    id: int,
    dialect: Seq<char>,
    name: Seq<char>,
    operands: Seq<ValueId>,
    results: Seq<ValueId>,
)
    requires
        grown(a, b),
        a.ir.ops.now.len() <= u32::MAX,
        stands(a, id, dialect, name, operands, results),
    ensures
        stands(b, id, dialect, name, operands, results),
        b.ir.op(OpId(id as u32)) == a.ir.op(OpId(id as u32)),
{
    reveal(grown);
    assert(b.ir.op(OpId(id as u32)) == a.ir.op(OpId(id as u32)));
}

proof fn growing_goes_on(a: ContextView, b: ContextView, c: ContextView)
    requires
        grown(a, b),
        grown(b, c),
    ensures
        grown(a, c),
{
    reveal(grown);
    assert forall|id: OpId| id.0 < a.ir.ops.now.len() implies #[trigger] c.ir.op(id) == a.ir.op(
        id,
    ) by {
        assert(b.ir.op(id) == a.ir.op(id));
    }
    assert forall|i: int| 0 <= i < a.names.len() implies #[trigger] c.names[i] == a.names[i] by {
        assert(b.names[i] == a.names[i]);
    }
    assert forall|i: int| 0 <= i < a.types.len() implies #[trigger] c.types[i] == a.types[i] by {
        assert(b.types[i] == a.types[i]);
    }
    assert forall|v: ValueId| v.0 < a.ir.values.now.len() implies ((
    #[trigger] c.ir.value(v)) is Some <==> a.ir.value(v) is Some) && c.type_of(v) == a.type_of(
        v,
    ) by {
        assert(b.ir.value(v) is Some <==> a.ir.value(v) is Some);
    }
}

proof fn defining_keeps_types(ir: IrView, results: Seq<ValueId>, op: OpId, n: nat)
    ensures
        forall|v: ValueId| ((#[trigger] results_defined(ir, results, op, n).value(v)) is Some
            <==> ir.value(v) is Some) && results_defined(ir, results, op, n).value(v)->0.value.ty
            == ir.value(v)->0.value.ty,
    decreases n,
{
    if n > 0 {
        defining_keeps_types(ir, results, op, (n - 1) as nat);
        let before = results_defined(ir, results, op, (n - 1) as nat);
        let after = results_defined(ir, results, op, n);
        assert forall|v: ValueId| ((#[trigger] after.value(v)) is Some <==> ir.value(v) is Some)
            && after.value(v)->0.value.ty == ir.value(v)->0.value.ty by {
            assert(before.value(v) is Some <==> ir.value(v) is Some);
            if v.0 != results[n - 1].0 {
                assert(after.value(v) == before.value(v));
            }
        }
    }
}

proof fn minting_keeps_types(context: ContextView, types: Seq<TypeId>, n: nat)
    requires
        context.ir.values.now.len() + n <= u32::MAX,
    ensures
        forall|v: ValueId|
            v.0 < context.ir.values.now.len() ==> #[trigger] with_values(
                context,
                types,
                n,
            ).ir.value(v) == context.ir.value(v),
        n > 0 ==> with_values(context, types, n).ir.value(
            ValueId(context.ir.values.now.len() as u32),
        ) is Some,
        n > 0 ==> with_values(context, types, n).type_of(
            ValueId(context.ir.values.now.len() as u32),
        ) == types[0],
    decreases n,
{
    if n > 0 {
        minting_keeps_types(context, types, (n - 1) as nat);
        minting_counts(context, types, (n - 1) as nat);
        let before = with_values(context, types, (n - 1) as nat);
        let after = with_values(context, types, n);
        assert forall|v: ValueId| v.0 < before.ir.values.now.len() implies #[trigger] after.ir.value(
            v,
        ) == before.ir.value(v) by {}
    }
}

proof fn minting_states_keeps_types(context: ContextView, n: nat)
    requires
        context.ir.values.now.len() + n <= u32::MAX,
    ensures
        forall|v: ValueId|
            v.0 < context.ir.values.now.len() ==> #[trigger] with_states(context, n).ir.value(v)
                == context.ir.value(v),
    decreases n,
{
    if n > 0 {
        minting_states_keeps_types(context, (n - 1) as nat);
        minting_states_counts(context, (n - 1) as nat);
        let before = with_states(context, (n - 1) as nat);
        let after = with_states(context, n);
        assert forall|v: ValueId| v.0 < before.ir.values.now.len() implies #[trigger] after.ir.value(
            v,
        ) == before.ir.value(v) by {}
    }
}

proof fn interning_grows(context: ContextView, ty: TypeView)
    requires
        context.types.len() < u32::MAX,
    ensures
        grown(context, context.with_type(ty)),
        context.with_type(ty).known_type(ty).0 < context.with_type(ty).types.len(),
        context.with_type(ty).types[context.with_type(ty).known_type(ty).0 as int] == ty,
        context.with_type(ty).types.len() <= context.types.len() + 1,
        context.with_type(ty).ir == context.ir,
        context.with_type(ty).names == context.names,
{
    reveal(grown);
    let after = context.with_type(ty);
    if !context.types.contains(ty) {
        assert(after.types[context.types.len() as int] == ty);
    }
    assert(after.types.contains(ty));
    first_position_is_first(after.types, ty);
}

/// Emitting an operation without regions just before another adds that operation
/// under the next number, with what its description says, and nothing else.
proof fn emission_adds(context: ContextView, block: BlockId, op: OpId, b: BuilderView)
    requires
        context.takes_before(block, op),
        context.ir.ops.now.len() < u32::MAX,
        context.names.len() < u32::MAX,
        context.ir.values.now.len() + b.result_types.len() + b.dep_results <= u32::MAX,
        b.regions.len() == 0,
    ensures
        ({
            let after = context.emitted(block, op, b);
            let n = context.ir.ops.now.len() as int;
            let first = context.ir.values.now.len();
            let held = context.ir.block(block)->0.operations;
            let p = context.position_in(block, op)->0;
            &&& grown(context, after)
            &&& after.takes_before(block, op)
            &&& after.ir.ops.now.len() == n + 1
            &&& after.names.len() <= context.names.len() + 1
            &&& after.types == context.types
            &&& after.ir.values.now.len() == first + b.result_types.len() + b.dep_results
            &&& stands(
                after,
                n,
                b.identity.0,
                b.identity.1,
                b.operands + b.dep_operands,
                minted_ids(first, b.result_types.len()) + minted_ids(
                    first + b.result_types.len(),
                    b.dep_results,
                ),
            )
            &&& after.ir.op(OpId(n as u32))->0.attributes == b.attributes
            &&& b.result_types.len() > 0 ==> after.ir.value(ValueId(first as u32)) is Some
                && after.type_of(ValueId(first as u32)) == b.result_types[0]
            &&& after.ir.block(block) is Some
            &&& 0 <= p < held.len()
            &&& after.ir.block(block)->0.operations == held.insert(p, OpId(n as u32))
            &&& after.position_in(block, op) == Some(p + 1)
        }),
{
    reveal(grown);
    let n = context.ir.ops.now.len() as int;
    let first = context.ir.values.now.len();
    let held = context.ir.block(block)->0.operations;
    first_position_is_first(held, op);
    let p = context.position_in(block, op)->0;
    placing_keeps_positions(context, b, block, p, block, op);
    b.building_keeps(context);
    b.built_is_there(context);
    let built = b.built(context);
    let after = context.emitted(block, op, b);
    let new = OpId(n as u32);
    assert(built.ir.block(block) == context.ir.block(block));
    assert(built.ir.op(new) == Some(b.op(context)));
    let minted = b.minted(context);
    let valued = with_values(context, b.result_types, b.result_types.len());
    minting_counts(context, b.result_types, b.result_types.len());
    minting_keeps_types(context, b.result_types, b.result_types.len());
    let named = with_op_name(valued, b.identity);
    minting_states_counts(named, b.dep_results);
    minting_states_keeps_types(named, b.dep_results);
    let added = minted.ir.add_op(b.op(context));
    defining_keeps_types(added, b.op(context).results, new, b.op(context).results.len());
    assert(crate::context::edits::regions_owned(
        results_defined(added, b.op(context).results, new, b.op(context).results.len()),
        b.op(context).regions,
        new,
        0,
    ) == results_defined(added, b.op(context).results, new, b.op(context).results.len()));
    assert(minted.names == named.names);
    assert(minted.names.contains(b.identity)) by {
        if !context.names.contains(b.identity) {
            assert(named.names[context.names.len() as int] == b.identity);
        }
    }
    first_position_is_first(minted.names, b.identity);
    assert(after.names == minted.names);
    assert forall|id: OpId| id.0 < context.ir.ops.now.len() implies #[trigger] after.ir.op(id)
        == context.ir.op(id) by {
        assert(built.ir.op(id) == context.ir.op(id));
    }
    assert forall|v: ValueId| v.0 < context.ir.values.now.len() implies ((
    #[trigger] after.ir.value(v)) is Some <==> context.ir.value(v) is Some) && after.type_of(v)
        == context.type_of(v) by {
        assert(after.ir.values == built.ir.values);
        assert(valued.ir.value(v) == context.ir.value(v));
        assert(minted.ir.value(v) == named.ir.value(v));
        assert(built.ir.value(v) is Some <==> added.value(v) is Some);
    }
    if b.result_types.len() > 0 {
        let v = ValueId(first as u32);
        assert(after.ir.values == built.ir.values);
        assert(minted.ir.value(v) == named.ir.value(v));
        assert(built.ir.value(v) is Some <==> added.value(v) is Some);
    }
    let list = held.insert(p, new);
    assert(list[p + 1] == op);
    assert forall|j: int| 0 <= j < p + 1 implies list[j] != op by {
        if j < p {
            assert(list[j] == held[j]);
        }
    }
    first_position_at(list, op, p + 1);
}

/// The ids of `n` operations from `first` on.
pub open spec fn numbered(first: nat, n: nat) -> Seq<OpId> {
    Seq::new(n, |i: int| OpId((first + i) as u32))
}

/// Whether the operations `b` has beyond those of `a` stand in `block` in the
/// order of their numbers, just before `op`, and the block is the same otherwise.
#[verifier::opaque]
pub open spec fn placed(a: ContextView, b: ContextView, block: BlockId, op: OpId) -> bool {
    let held = a.ir.block(block)->0.operations;
    let p = a.position_in(block, op)->0;
    let n = (b.ir.ops.now.len() - a.ir.ops.now.len()) as nat;
    &&& a.takes_before(block, op)
    &&& b.takes_before(block, op)
    &&& 0 <= p < held.len()
    &&& a.ir.ops.now.len() <= b.ir.ops.now.len()
    &&& b.ir.block(block)->0.operations == held.take(p) + numbered(a.ir.ops.now.len(), n)
        + held.skip(p)
    &&& b.position_in(block, op) == Some(p + n)
}

proof fn placing_goes_on(a: ContextView, b: ContextView, c: ContextView, block: BlockId, op: OpId)
    requires
        placed(a, b, block, op),
        placed(b, c, block, op),
    ensures
        placed(a, c, block, op),
{
    reveal(placed);
    let held = a.ir.block(block)->0.operations;
    let p = a.position_in(block, op)->0;
    let m = (b.ir.ops.now.len() - a.ir.ops.now.len()) as nat;
    let n = (c.ir.ops.now.len() - a.ir.ops.now.len()) as nat;
    let middle = b.ir.block(block)->0.operations;
    assert(middle.take(p + m) =~= held.take(p) + numbered(a.ir.ops.now.len(), m));
    assert(middle.skip(p + m) =~= held.skip(p));
    assert(c.ir.block(block)->0.operations =~= held.take(p) + numbered(a.ir.ops.now.len(), n)
        + held.skip(p));
}

proof fn emission_is_placed(context: ContextView, block: BlockId, op: OpId, b: BuilderView)
    requires
        context.takes_before(block, op),
        context.ir.ops.now.len() < u32::MAX,
        context.names.len() < u32::MAX,
        context.ir.values.now.len() + b.result_types.len() + b.dep_results <= u32::MAX,
        b.regions.len() == 0,
    ensures
        placed(context, context.emitted(block, op, b), block, op),
{
    reveal(placed);
    emission_adds(context, block, op, b);
    let held = context.ir.block(block)->0.operations;
    let p = context.position_in(block, op)->0;
    let n = context.ir.ops.now.len();
    assert(held.insert(p, OpId(n as u32)) =~= held.take(p) + numbered(n, 1) + held.skip(p));
}

proof fn staying_is_placed(a: ContextView, b: ContextView, block: BlockId, op: OpId)
    requires
        a.takes_before(block, op),
        b.ir == a.ir,
    ensures
        placed(a, b, block, op),
{
    reveal(placed);
    let held = a.ir.block(block)->0.operations;
    first_position_is_first(held, op);
    let p = a.position_in(block, op)->0;
    assert(held =~= held.take(p) + numbered(a.ir.ops.now.len(), 0) + held.skip(p));
}

proof fn growth_keeps_types(a: ContextView, b: ContextView, v: ValueId)
    requires
        grown(a, b),
        v.0 < a.ir.values.now.len(),
        a.type_of(v).0 < a.types.len(),
    ensures
        b.type_of(v) == a.type_of(v),
        b.type_of(v).0 < b.types.len(),
        b.types[a.type_of(v).0 as int] == a.types[a.type_of(v).0 as int],
        a.ir.values.now.len() <= b.ir.values.now.len(),
{
    reveal(grown);
    assert(b.ir.value(v) is Some <==> a.ir.value(v) is Some);
}

proof fn growth_keeps_type(a: ContextView, b: ContextView, ty: TypeId)
    requires
        grown(a, b),
        ty.0 < a.types.len(),
    ensures
        ty.0 < b.types.len(),
        b.types[ty.0 as int] == a.types[ty.0 as int],
{
    reveal(grown);
}

proof fn nothing_grows(a: ContextView)
    ensures
        grown(a, a),
{
    reveal(grown);
}

/// How many operations it takes to name the address `offset` bytes on.
pub open spec fn steps(offset: u64) -> int {
    if offset == 0 {
        0
    } else {
        2
    }
}

/// Whether `value` is the address `offset` bytes beyond `base`: `base` itself
/// where that is no distance, else what the operations from `first` on make, the
/// distance and a `ptr.ptradd` of `base` by it.
pub open spec fn offset_made(
    context: ContextView,
    first: int,
    base: ValueId,
    offset: u64,
    value: ValueId,
) -> bool {
    if offset == 0 {
        value == base
    } else {
        let index = context.ir.op(OpId(first as u32))->0.results[0];
        &&& stands(context, first, "builtin"@, "constant"@, Seq::empty(), seq![index])
        &&& context.attr(OpId(first as u32), "value"@) == Some(AttrView::Int(offset as int))
        &&& stands(context, first + 1, "ptr"@, "ptradd"@, seq![base, index], seq![value])
    }
}

proof fn offset_stays(
    a: ContextView,
    b: ContextView,
    first: int,
    base: ValueId,
    offset: u64,
    value: ValueId,
)
    requires
        grown(a, b),
        a.ir.ops.now.len() <= u32::MAX,
        offset_made(a, first, base, offset, value),
    ensures
        offset_made(b, first, base, offset, value),
{
    if offset != 0 {
        let index = a.ir.op(OpId(first as u32))->0.results[0];
        standing_stays(a, b, first, "builtin"@, "constant"@, Seq::empty(), seq![index]);
        standing_stays(a, b, first + 1, "ptr"@, "ptradd"@, seq![base, index], seq![value]);
    }
}

proof fn one_minted(first: nat)
    ensures
        minted_ids(first, 1) + minted_ids(first + 1, 0) == seq![ValueId(first as u32)],
        minted_ids(first, 0) + minted_ids(first, 0) == Seq::<ValueId>::empty(),
        minted_ids(first, 0) + minted_ids(first, 1) == seq![ValueId(first as u32)],
        minted_ids(first, 1) + minted_ids(first + 1, 1) == seq![
            ValueId(first as u32),
            ValueId((first + 1) as u32),
        ],
{
    assert(minted_ids(first, 1) + minted_ids(first + 1, 0) =~= seq![ValueId(first as u32)]);
    assert(minted_ids(first, 0) + minted_ids(first, 0) =~= Seq::<ValueId>::empty());
    assert(minted_ids(first, 0) + minted_ids(first, 1) =~= seq![ValueId(first as u32)]);
    assert(minted_ids(first, 1) + minted_ids(first + 1, 1) =~= seq![
        ValueId(first as u32),
        ValueId((first + 1) as u32),
    ]);
}

proof fn address_is_made(
    context: ContextView,
    block: BlockId,
    op: OpId,
    base: ValueId,
    ty: TypeId,
    offset: u64,
)
    requires
        context.takes_before(block, op),
        context.has_room(3),
        offset <= i64::MAX,
    ensures
        ({
            let (after, value) = context.address(block, op, base, ty, offset);
            &&& grown(context, after)
            &&& placed(context, after, block, op)
            &&& after.takes_before(block, op)
            &&& offset_made(after, context.ir.ops.now.len() as int, base, offset, value)
            &&& after.ir.ops.now.len() == context.ir.ops.now.len() + steps(offset)
            &&& after.ir.values.now.len() == context.ir.values.now.len() + steps(offset)
            &&& after.types.len() <= context.types.len() + 1
            &&& after.names.len() <= context.names.len() + 2
        }),
{
    let (after, value) = context.address(block, op, base, ty, offset);
    if offset == 0 {
        nothing_grows(context);
        staying_is_placed(context, after, block, op);
    } else {
        let n = context.ir.ops.now.len();
        let first = context.ir.values.now.len();
        let typed = context.with_type(TypeView::Integer(64));
        interning_grows(context, TypeView::Integer(64));
        staying_is_placed(context, typed, block, op);
        let word = typed.known_type(TypeView::Integer(64));
        let constant = constant_view(offset as i64, word);
        assert(typed.takes_before(block, op));
        emission_adds(typed, block, op, constant);
        emission_is_placed(typed, block, op, constant);
        let indexed = typed.emitted(block, op, constant);
        let index = ValueId(first as u32);
        let sum = ptradd_view(base, index, ty);
        emission_adds(indexed, block, op, sum);
        emission_is_placed(indexed, block, op, sum);
        one_minted(first);
        one_minted(first + 1);
        growing_goes_on(context, typed, indexed);
        growing_goes_on(context, indexed, after);
        placing_goes_on(context, typed, indexed, block, op);
        placing_goes_on(context, indexed, after, block, op);
        assert(constant.operands + constant.dep_operands =~= Seq::<ValueId>::empty());
        assert(sum.operands + sum.dep_operands =~= seq![base, index]);
        standing_stays(
            indexed,
            after,
            n as int,
            "builtin"@,
            "constant"@,
            Seq::empty(),
            seq![index],
        );
        let attributes = indexed.ir.op(OpId(n as u32))->0.attributes;
        assert(attributes == constant.attributes);
        assert(attributes[0] == ("value"@, AttrView::Int(offset as int)));
        assert(dict_lookup(attributes, "value"@) == Some(AttrView::Int(offset as int)));
        assert(value == ValueId((first + 1) as u32));
    }
}

/// A memory state as an operand or a result, where there is one.
pub open spec fn chained(state: Option<ValueId>) -> Seq<ValueId> {
    match state {
        Some(s) => seq![s],
        None => Seq::empty(),
    }
}

/// Whether the operations from `first` on, in this context, move one chunk:
/// a load of as many bytes as the chunk has at its offset from `source`, and a
/// store of what the load read at the same offset from `destination`. The load
/// observes `state`, the store the state the load leaves, and the store leaves
/// `left`.
#[verifier::opaque]
pub open spec fn moves(
    context: ContextView,
    first: int,
    source: ValueId,
    destination: ValueId,
    chunk: Chunk,
    state: Option<ValueId>,
    left: Option<ValueId>,
) -> bool {
    let load = first + 2 * steps(chunk.offset);
    let from = context.ir.op(OpId(load as u32))->0.operands[0];
    let into = context.ir.op(OpId((load + 1) as u32))->0.operands[1];
    let data = context.ir.op(OpId(load as u32))->0.results[0];
    let between = match state {
        Some(_) => Some(context.ir.op(OpId(load as u32))->0.results[1]),
        None => None,
    };
    &&& offset_made(context, first, source, chunk.offset, from)
    &&& offset_made(context, first + steps(chunk.offset), destination, chunk.offset, into)
    &&& stands(
        context,
        load,
        "ptr"@,
        "load"@,
        seq![from] + chained(state),
        seq![data] + chained(between),
    )
    &&& data.0 < context.ir.values.now.len()
    &&& context.type_of(data).0 < context.types.len()
    &&& context.types[context.type_of(data).0 as int] == TypeView::Integer(
        (8 * chunk.bytes) as u32,
    )
    &&& stands(
        context,
        load + 1,
        "ptr"@,
        "store"@,
        seq![data, into] + chained(between),
        chained(left),
    )
    &&& left is Some <==> state is Some
}

/// How many operations move one chunk.
pub open spec fn moving_steps(chunk: Chunk) -> int {
    2 * steps(chunk.offset) + 2
}

proof fn moving_stays(
    a: ContextView,
    b: ContextView,
    first: int,
    source: ValueId,
    destination: ValueId,
    chunk: Chunk,
    state: Option<ValueId>,
    left: Option<ValueId>,
)
    requires
        grown(a, b),
        a.ir.ops.now.len() <= u32::MAX,
        moves(a, first, source, destination, chunk, state, left),
    ensures
        moves(b, first, source, destination, chunk, state, left),
{
    reveal(moves);
    let load = first + 2 * steps(chunk.offset);
    let from = a.ir.op(OpId(load as u32))->0.operands[0];
    let into = a.ir.op(OpId((load + 1) as u32))->0.operands[1];
    let data = a.ir.op(OpId(load as u32))->0.results[0];
    let between = match state {
        Some(_) => Some(a.ir.op(OpId(load as u32))->0.results[1]),
        None => None,
    };
    offset_stays(a, b, first, source, chunk.offset, from);
    offset_stays(a, b, first + steps(chunk.offset), destination, chunk.offset, into);
    standing_stays(
        a,
        b,
        load,
        "ptr"@,
        "load"@,
        seq![from] + chained(state),
        seq![data] + chained(between),
    );
    standing_stays(
        a,
        b,
        load + 1,
        "ptr"@,
        "store"@,
        seq![data, into] + chained(between),
        chained(left),
    );
    growth_keeps_types(a, b, data);
}

/// Whether `after` is `context` with a load at `source` and a store of what it
/// read at `destination`.
spec fn accessed(
    context: ContextView,
    after: ContextView,
    source: ValueId,
    destination: ValueId,
    ty: TypeId,
    state: Option<ValueId>,
    left: Option<ValueId>,
) -> bool {
    let load = context.ir.ops.now.len() as int;
    let data = context.next_value();
    let between = match state {
        Some(_) => Some(ValueId((context.ir.values.now.len() + 1) as u32)),
        None => None,
    };
    &&& stands(
        after,
        load,
        "ptr"@,
        "load"@,
        seq![source] + chained(state),
        seq![data] + chained(between),
    )
    &&& data.0 < after.ir.values.now.len()
    &&& after.type_of(data) == ty
    &&& stands(
        after,
        load + 1,
        "ptr"@,
        "store"@,
        seq![data, destination] + chained(between),
        chained(left),
    )
    &&& left is Some <==> state is Some
    &&& after.ir.ops.now.len() == load + 2
}

#[verifier::spinoff_prover]
#[verifier::rlimit(40)]
proof fn accesses_stand(
    context: ContextView,
    block: BlockId,
    op: OpId,
    source: ValueId,
    destination: ValueId,
    ty: TypeId,
    state: Option<ValueId>,
)
    requires
        context.takes_before(block, op),
        context.has_room(4),
        ty.0 < context.types.len(),
    ensures
        ({
            let between = match state {
                Some(_) => Some(ValueId((context.ir.values.now.len() + 1) as u32)),
                None => None,
            };
            let loaded = context.emitted(block, op, load_view(source, ty, state));
            let after = (Emission { context: loaded, state: between }).stored(
                block,
                op,
                destination,
                context.next_value(),
            );
            &&& grown(context, after.context)
            &&& placed(context, after.context, block, op)
            &&& after.context.takes_before(block, op)
            &&& accessed(context, after.context, source, destination, ty, state, after.state)
            &&& after.context.types == context.types
            &&& after.context.names.len() <= context.names.len() + 2
            &&& after.context.ir.values.now.len() <= context.ir.values.now.len() + 3
            &&& context.ir.values.now.len() <= after.context.ir.values.now.len()
        }),
{
    let reading = load_view(source, ty, state);
    emission_adds(context, block, op, reading);
    emission_is_placed(context, block, op, reading);
    let loaded = context.emitted(block, op, reading);
    let first = context.ir.values.now.len();
    let data = ValueId(first as u32);
    let between = match state {
        Some(_) => Some(ValueId((first + 1) as u32)),
        None => None,
    };
    one_minted(first);
    assert(reading.operands + reading.dep_operands =~= seq![source] + chained(state));
    assert(seq![data] + chained(between) =~= minted_ids(first, 1) + minted_ids(
        first + 1,
        reading.dep_results,
    ));
    assert(reading.result_types =~= seq![ty]);
    let writing = store_view(data, destination, between);
    emission_adds(loaded, block, op, writing);
    emission_is_placed(loaded, block, op, writing);
    let after = loaded.emitted(block, op, writing);
    growing_goes_on(context, loaded, after);
    placing_goes_on(context, loaded, after, block, op);
    let left = match between {
        Some(_) => Some(loaded.next_value()),
        None => None,
    };
    one_minted(loaded.ir.values.now.len());
    assert(writing.operands + writing.dep_operands =~= seq![data, destination] + chained(between));
    assert(writing.result_types =~= Seq::empty());
    assert(chained(left) =~= minted_ids(loaded.ir.values.now.len(), 0) + minted_ids(
        loaded.ir.values.now.len(),
        writing.dep_results,
    ));
    standing_stays(
        loaded,
        after,
        context.ir.ops.now.len() as int,
        "ptr"@,
        "load"@,
        seq![source] + chained(state),
        seq![data] + chained(between),
    );
    growth_keeps_types(loaded, after, data);
}

proof fn accesses_move(
    first: int,
    source: ValueId,
    destination: ValueId,
    to: ContextView,
    after: ContextView,
    from: ValueId,
    into: ValueId,
    ty: TypeId,
    chunk: Chunk,
    state: Option<ValueId>,
    left: Option<ValueId>,
)
    requires
        grown(to, after),
        to.ir.ops.now.len() <= u32::MAX,
        to.ir.ops.now.len() == first + 2 * steps(chunk.offset),
        offset_made(to, first, source, chunk.offset, from),
        offset_made(to, first + steps(chunk.offset), destination, chunk.offset, into),
        accessed(to, after, from, into, ty, state, left),
        ty.0 < after.types.len(),
        after.types[ty.0 as int] == TypeView::Integer((8 * chunk.bytes) as u32),
    ensures
        moves(after, first, source, destination, chunk, state, left),
{
    reveal(moves);
    offset_stays(to, after, first, source, chunk.offset, from);
    offset_stays(to, after, first + steps(chunk.offset), destination, chunk.offset, into);
    let data = to.next_value();
    let between = match state {
        Some(_) => Some(ValueId((to.ir.values.now.len() + 1) as u32)),
        None => None,
    };
    assert((seq![from] + chained(state))[0] == from);
    assert((seq![data] + chained(between))[0] == data);
    assert(between is Some ==> (seq![data] + chained(between))[1] == between->0);
    assert((seq![data, into] + chained(between))[1] == into);
}

#[verifier::spinoff_prover]
#[verifier::rlimit(40)]
proof fn one_chunk_moves(before: Emission, site: Site, chunk: Chunk)
    requires
        before.context.takes_before(site.block, site.op),
        before.context.has_room(11),
        chunk.offset <= i64::MAX,
        chunk.bytes <= 8,
    ensures
        ({
            let after = before.copied_chunk(site, chunk);
            &&& grown(before.context, after.context)
            &&& placed(before.context, after.context, site.block, site.op)
            &&& after.context.takes_before(site.block, site.op)
            &&& moves(
                after.context,
                before.context.ir.ops.now.len() as int,
                site.source,
                site.destination,
                chunk,
                before.state,
                after.state,
            )
            &&& after.context.ir.ops.now.len() == before.context.ir.ops.now.len() + moving_steps(
                chunk,
            )
            &&& before.context.grew(after.context, 7)
        }),
{
    let context = before.context;
    let (block, op) = (site.block, site.op);
    let n = context.ir.ops.now.len() as int;
    let ty = TypeView::Integer((chunk.bytes * 8) as u32);
    let typed = context.with_type(ty);
    interning_grows(context, ty);
    staying_is_placed(context, typed, block, op);
    assert(typed.takes_before(block, op));
    address_is_made(typed, block, op, site.source, site.source_ty, chunk.offset);
    let (from, source) = typed.address(block, op, site.source, site.source_ty, chunk.offset);
    address_is_made(from, block, op, site.destination, site.destination_ty, chunk.offset);
    let (to, destination) = from.address(
        block,
        op,
        site.destination,
        site.destination_ty,
        chunk.offset,
    );
    growing_goes_on(context, typed, from);
    growing_goes_on(context, from, to);
    placing_goes_on(context, typed, from, block, op);
    placing_goes_on(context, from, to, block, op);
    offset_stays(from, to, n, site.source, chunk.offset, source);
    let word = typed.known_type(ty);
    growing_goes_on(typed, from, to);
    growth_keeps_type(typed, to, word);
    accesses_stand(to, block, op, source, destination, word, before.state);
    let after = before.copied_chunk(site, chunk);
    growing_goes_on(context, to, after.context);
    placing_goes_on(context, to, after.context, block, op);
    growth_keeps_type(to, after.context, word);
    assert(chunk.bytes * 8 == 8 * chunk.bytes);
    accesses_move(
        n,
        site.source,
        site.destination,
        to,
        after.context,
        source,
        destination,
        word,
        chunk,
        before.state,
        after.state,
    );
}

/// How many operations move the first `n` of `chunks`.
pub open spec fn moved_steps(chunks: Seq<Chunk>, n: int) -> int
    decreases n,
{
    if n <= 0 {
        0
    } else {
        moved_steps(chunks, n - 1) + moving_steps(chunks[n - 1])
    }
}

#[verifier::opaque]
spec fn start_at(begun: Emission, chunks: Seq<Chunk>, i: int) -> int {
    begun.context.ir.ops.now.len() + moved_steps(chunks, i)
}

#[verifier::opaque]
spec fn state_at(begun: Emission, site: Site, chunks: Seq<Chunk>, i: int) -> Option<ValueId> {
    begun.copied(site, chunks, i).state
}

proof fn starts_follow(begun: Emission, chunks: Seq<Chunk>, i: int)
    requires
        0 <= i,
    ensures
        start_at(begun, chunks, 0) == begun.context.ir.ops.now.len(),
        start_at(begun, chunks, i + 1) == start_at(begun, chunks, i) + moving_steps(chunks[i]),
{
    reveal(start_at);
}

proof fn state_is_at(begun: Emission, site: Site, chunks: Seq<Chunk>, i: int)
    ensures
        state_at(begun, site, chunks, i) == begun.copied(site, chunks, i).state,
{
    reveal(state_at);
}

#[verifier::spinoff_prover]
proof fn chunks_move(begun: Emission, site: Site, chunks: Seq<Chunk>, n: int)
    requires
        begun.context.takes_before(site.block, site.op),
        begun.context.has_room(64),
        0 <= n <= chunks.len() <= 8,
        forall|i: int|
            0 <= i < chunks.len() ==> (#[trigger] chunks[i]).bytes <= 8 && chunks[i].offset
                <= i64::MAX,
    ensures
        ({
            let after = begun.copied(site, chunks, n);
            &&& grown(begun.context, after.context)
            &&& placed(begun.context, after.context, site.block, site.op)
            &&& after.context.takes_before(site.block, site.op)
            &&& begun.context.grew(after.context, (7 * n) as nat)
            &&& after.context.ir.ops.now.len() == start_at(begun, chunks, n)
            &&& after.state == state_at(begun, site, chunks, n)
        }),
        forall|i: int|
            #![trigger chunks[i]]
            0 <= i < n ==> moves(
                begun.copied(site, chunks, n).context,
                start_at(begun, chunks, i),
                site.source,
                site.destination,
                chunks[i],
                state_at(begun, site, chunks, i),
                state_at(begun, site, chunks, i + 1),
            ),
    decreases n,
{
    state_is_at(begun, site, chunks, n);
    if n == 0 {
        nothing_grows(begun.context);
        staying_is_placed(begun.context, begun.context, site.block, site.op);
        starts_follow(begun, chunks, 0);
    } else {
        chunks_move(begun, site, chunks, n - 1);
        let before = begun.copied(site, chunks, n - 1);
        let after = begun.copied(site, chunks, n);
        let last = chunks[n - 1];
        assert(after == before.copied_chunk(site, last));
        one_chunk_moves(before, site, last);
        starts_follow(begun, chunks, n - 1);
        moving_on(begun, site, chunks, n, before, after);
    }
}

proof fn moving_on(
    begun: Emission,
    site: Site,
    chunks: Seq<Chunk>,
    n: int,
    before: Emission,
    after: Emission,
)
    requires
        0 < n <= chunks.len(),
        grown(begun.context, before.context),
        placed(begun.context, before.context, site.block, site.op),
        grown(before.context, after.context),
        placed(before.context, after.context, site.block, site.op),
        before.context.ir.ops.now.len() <= u32::MAX,
        forall|i: int|
            #![trigger chunks[i]]
            0 <= i < n - 1 ==> moves(
                before.context,
                start_at(begun, chunks, i),
                site.source,
                site.destination,
                chunks[i],
                state_at(begun, site, chunks, i),
                state_at(begun, site, chunks, i + 1),
            ),
        moves(
            after.context,
            start_at(begun, chunks, n - 1),
            site.source,
            site.destination,
            chunks[n - 1],
            state_at(begun, site, chunks, n - 1),
            state_at(begun, site, chunks, n),
        ),
    ensures
        grown(begun.context, after.context),
        placed(begun.context, after.context, site.block, site.op),
        forall|i: int|
            #![trigger chunks[i]]
            0 <= i < n ==> moves(
                after.context,
                start_at(begun, chunks, i),
                site.source,
                site.destination,
                chunks[i],
                state_at(begun, site, chunks, i),
                state_at(begun, site, chunks, i + 1),
            ),
{
    growing_goes_on(begun.context, before.context, after.context);
    placing_goes_on(begun.context, before.context, after.context, site.block, site.op);
    assert forall|i: int|
        #![trigger chunks[i]]
        0 <= i < n implies moves(
        after.context,
        start_at(begun, chunks, i),
        site.source,
        site.destination,
        chunks[i],
        state_at(begun, site, chunks, i),
        state_at(begun, site, chunks, i + 1),
    ) by {
        if i < n - 1 {
            moving_stays(
                before.context,
                after.context,
                start_at(begun, chunks, i),
                site.source,
                site.destination,
                chunks[i],
                state_at(begun, site, chunks, i),
                state_at(begun, site, chunks, i + 1),
            );
        }
    }
}

/// Whether `emitted` is `before` with the chunks moved that an intrinsic with
/// the operands destination, source and size copies: the operations that move
/// chunk `i` are those from `starts[i]` on, the first from the first number that
/// was free, the next where the last end, and they stand in this order just
/// before the intrinsic; `states[i]` is the memory state before chunk `i`.
pub open spec fn copied_by(
    before: ContextView,
    op: OpId,
    chunks: Seq<Chunk>,
    emitted: Emission,
    starts: Seq<int>,
    states: Seq<Option<ValueId>>,
) -> bool {
    let operands = before.ir.op(op)->0.operands;
    &&& starts.len() == chunks.len() + 1
    &&& states.len() == chunks.len() + 1
    &&& starts[0] == before.ir.ops.now.len()
    &&& starts[chunks.len() as int] == emitted.context.ir.ops.now.len()
    &&& states[0] == before.observed_state(op)
    &&& states[chunks.len() as int] == emitted.state
    &&& grown(before, emitted.context)
    &&& placed(before, emitted.context, before.block_of(op), op)
    &&& forall|i: int|
        #![trigger chunks[i]]
        0 <= i < chunks.len() ==> {
            &&& starts[i + 1] == starts[i] + moving_steps(chunks[i])
            &&& moves(
                emitted.context,
                starts[i],
                operands[1],
                operands[0],
                chunks[i],
                states[i],
                states[i + 1],
            )
        }
}

proof fn plans_stay_small(limit: Option<AttrView>, widths: Option<AttrView>, bytes: u64, i: int)
    requires
        inline_plan(limit, widths, Some(bytes)) is Some,
        0 <= i < inline_plan(limit, widths, Some(bytes))->0.len(),
    ensures
        inline_plan(limit, widths, Some(bytes))->0.len() <= 8,
        inline_plan(limit, widths, Some(bytes))->0[i].bytes <= 8,
        inline_plan(limit, widths, Some(bytes))->0[i].offset < 64,
{
    inline_accesses_are_exact(limit, widths, bytes);
    coverage_is_small(
        inline_plan(limit, widths, Some(bytes))->0,
        0,
        bytes as nat,
        widths_of(widths),
        i,
    );
}

proof fn coverage_is_small(chunks: Seq<Chunk>, start: nat, end: nat, widths: Widths, i: int)
    requires
        covers_exactly(chunks, start, end, widths),
        0 <= i < chunks.len(),
    ensures
        chunks[i].bytes <= 8,
        start <= chunks[i].offset <= start + 8 * i,
    decreases chunks.len(),
{
    if i > 0 {
        coverage_is_small(
            chunks.skip(1),
            start + chunks[0].bytes as nat,
            end,
            widths,
            i - 1,
        );
        assert(chunks.skip(1)[i - 1] == chunks[i]);
    }
}

/// A copy that is expanded inline reads only from its source and writes only to
/// its destination: for each chunk of the plan it loads at the chunk's offset
/// from the second operand and stores what it loaded at the same offset from the
/// first, one chunk after the other on one chain of memory states.
pub proof fn inlined_copies_go_from_source_to_destination(
    copy: MemcpyOp,
    before: ContextView,
    after: ContextView,
    limit: Option<AttrView>,
    widths: Option<AttrView>,
    r: Result<(), PassError>,
    bytes: u64,
)
    requires
        before.expandable(copy.0.id),
        before.has_room(64),
        copy.0.id.0 < before.ir.ops.now.len(),
        copy.expanded(before, after, limit, widths, r),
        target_failure(limit, widths) is None,
        before.known_bytes(before.ir.op(copy.0.id)->0.operands[2]) == Some(bytes),
        inline_plan(limit, widths, Some(bytes)) is Some,
    ensures
        exists|emitted: Emission, starts: Seq<int>, states: Seq<Option<ValueId>>|
            {
                &&& #[trigger] copied_by(
                    before,
                    copy.0.id,
                    inline_plan(limit, widths, Some(bytes))->0,
                    emitted,
                    starts,
                    states,
                )
                &&& finished(
                    emitted,
                    after,
                    before.block_of(copy.0.id),
                    copy.0.id,
                    before.left_state(copy.0.id),
                    r,
                )
            },
{
    let op = copy.0.id;
    let chunks = inline_plan(limit, widths, Some(bytes))->0;
    let site = before.site(op);
    let begun = Emission { context: before, state: before.observed_state(op) };
    let n = chunks.len() as int;
    inline_accesses_are_exact(limit, widths, bytes);
    assert forall|i: int| 0 <= i < chunks.len() implies (#[trigger] chunks[i]).bytes <= 8
        && chunks[i].offset <= i64::MAX by {
        plans_stay_small(limit, widths, bytes, i);
    }
    chunks_move(begun, site, chunks, n);
    let emitted = begun.copied(site, chunks, n);
    let starts = Seq::new((n + 1) as nat, |i: int| start_at(begun, chunks, i));
    let states = Seq::new((n + 1) as nat, |i: int| state_at(begun, site, chunks, i));
    starts_follow(begun, chunks, 0);
    state_is_at(begun, site, chunks, 0);
    assert forall|i: int|
        #![trigger chunks[i]]
        0 <= i < chunks.len() implies {
        &&& starts[i + 1] == starts[i] + moving_steps(chunks[i])
        &&& moves(
            emitted.context,
            starts[i],
            before.ir.op(op)->0.operands[1],
            before.ir.op(op)->0.operands[0],
            chunks[i],
            states[i],
            states[i + 1],
        )
    } by {
        starts_follow(begun, chunks, i);
    }
    assert(copied_by(before, op, chunks, emitted, starts, states));
}

/// How many operations make what a chunk is filled with: none for a byte.
pub open spec fn fill_steps(chunk: Chunk) -> int {
    if chunk.bytes > 1 {
        3
    } else {
        0
    }
}

/// How many operations fill one chunk.
pub open spec fn filling_steps(chunk: Chunk) -> int {
    steps(chunk.offset) + fill_steps(chunk) + 1
}

/// Whether `fill` is as many copies of `byte` as the chunk has bytes: `byte`
/// itself for one, else what the operations from `first` on make, `byte` with
/// zeros above it times the number all whose bytes are one.
pub open spec fn fill_made(
    context: ContextView,
    first: int,
    byte: ValueId,
    chunk: Chunk,
    fill: ValueId,
) -> bool {
    if chunk.bytes > 1 {
        let wide = context.ir.op(OpId(first as u32))->0.results[0];
        let ones = context.ir.op(OpId((first + 1) as u32))->0.results[0];
        &&& stands(context, first, "builtin"@, "extui"@, seq![byte], seq![wide])
        &&& stands(context, first + 1, "builtin"@, "constant"@, Seq::empty(), seq![ones])
        &&& context.attr(OpId((first + 1) as u32), "value"@) == Some(
            AttrView::Int(repeated(1, chunk.bytes as nat) as int),
        )
        &&& stands(context, first + 2, "builtin"@, "muli"@, seq![wide, ones], seq![fill])
        &&& wide.0 < context.ir.values.now.len()
        &&& fill.0 < context.ir.values.now.len()
        &&& context.type_of(wide).0 < context.types.len()
        &&& context.types[context.type_of(wide).0 as int] == TypeView::Integer(
            (8 * chunk.bytes) as u32,
        )
        &&& context.type_of(fill) == context.type_of(wide)
    } else {
        fill == byte
    }
}

/// Whether the operations from `first` on, in this context, fill one chunk: a
/// store, at the chunk's offset from `destination`, of as many copies of `byte`
/// as the chunk has bytes. The store observes `state` and leaves `left`.
#[verifier::opaque]
pub open spec fn fills(
    context: ContextView,
    first: int,
    byte: ValueId,
    destination: ValueId,
    chunk: Chunk,
    state: Option<ValueId>,
    left: Option<ValueId>,
) -> bool {
    let store = first + steps(chunk.offset) + fill_steps(chunk);
    let fill = context.ir.op(OpId(store as u32))->0.operands[0];
    let into = context.ir.op(OpId(store as u32))->0.operands[1];
    &&& offset_made(context, first, destination, chunk.offset, into)
    &&& fill_made(context, first + steps(chunk.offset), byte, chunk, fill)
    &&& stands(
        context,
        store,
        "ptr"@,
        "store"@,
        seq![fill, into] + chained(state),
        chained(left),
    )
    &&& left is Some <==> state is Some
}

proof fn fill_stays(
    a: ContextView,
    b: ContextView,
    first: int,
    byte: ValueId,
    chunk: Chunk,
    fill: ValueId,
)
    requires
        grown(a, b),
        a.ir.ops.now.len() <= u32::MAX,
        fill_made(a, first, byte, chunk, fill),
    ensures
        fill_made(b, first, byte, chunk, fill),
{
    if chunk.bytes > 1 {
        let wide = a.ir.op(OpId(first as u32))->0.results[0];
        let ones = a.ir.op(OpId((first + 1) as u32))->0.results[0];
        standing_stays(a, b, first, "builtin"@, "extui"@, seq![byte], seq![wide]);
        standing_stays(a, b, first + 1, "builtin"@, "constant"@, Seq::empty(), seq![ones]);
        standing_stays(a, b, first + 2, "builtin"@, "muli"@, seq![wide, ones], seq![fill]);
        growth_keeps_types(a, b, wide);
        growth_keeps_types(a, b, fill);
    }
}

proof fn filling_stays(
    a: ContextView,
    b: ContextView,
    first: int,
    byte: ValueId,
    destination: ValueId,
    chunk: Chunk,
    state: Option<ValueId>,
    left: Option<ValueId>,
)
    requires
        grown(a, b),
        a.ir.ops.now.len() <= u32::MAX,
        fills(a, first, byte, destination, chunk, state, left),
    ensures
        fills(b, first, byte, destination, chunk, state, left),
{
    reveal(fills);
    let store = first + steps(chunk.offset) + fill_steps(chunk);
    let fill = a.ir.op(OpId(store as u32))->0.operands[0];
    let into = a.ir.op(OpId(store as u32))->0.operands[1];
    offset_stays(a, b, first, destination, chunk.offset, into);
    fill_stays(a, b, first + steps(chunk.offset), byte, chunk, fill);
    standing_stays(
        a,
        b,
        store,
        "ptr"@,
        "store"@,
        seq![fill, into] + chained(state),
        chained(left),
    );
}

proof fn ones_are_small(bytes: nat)
    requires
        bytes <= 8,
    ensures
        repeated(1, bytes) <= 0x0101_0101_0101_0101,
        repeated(1, bytes) as u64 as i64 == repeated(1, bytes),
{
    reveal_with_fuel(repeated, 9);
    assert(repeated(1, bytes) <= 0x0101_0101_0101_0101);
}

spec fn fill_emitted(
    context: ContextView,
    block: BlockId,
    op: OpId,
    byte: ValueId,
    chunk: Chunk,
) -> (ContextView, ValueId) {
    if chunk.bytes > 1 {
        let data = TypeView::Integer((chunk.bytes * 8) as u32);
        let typed = context.with_type(data);
        let ty = typed.known_type(data);
        let extended = typed.emitted(block, op, extui_view(byte, ty));
        let repeating = extended.emitted(
            block,
            op,
            constant_view(repeated(1, chunk.bytes as nat) as u64 as i64, ty),
        );
        let product = repeating.emitted(
            block,
            op,
            muli_view(typed.next_value(), extended.next_value(), ty),
        );
        (product, repeating.next_value())
    } else {
        (context, byte)
    }
}

#[verifier::spinoff_prover]
#[verifier::rlimit(30)]
proof fn fill_is_made(
    context: ContextView,
    block: BlockId,
    op: OpId,
    byte: ValueId,
    chunk: Chunk,
)
    requires
        context.takes_before(block, op),
        context.has_room(5),
        chunk.bytes <= 8,
    ensures
        ({
            let (after, fill) = fill_emitted(context, block, op, byte, chunk);
            &&& grown(context, after)
            &&& placed(context, after, block, op)
            &&& after.takes_before(block, op)
            &&& fill_made(after, context.ir.ops.now.len() as int, byte, chunk, fill)
            &&& after.ir.ops.now.len() == context.ir.ops.now.len() + fill_steps(chunk)
            &&& after.ir.values.now.len() == context.ir.values.now.len() + fill_steps(chunk)
            &&& after.types.len() <= context.types.len() + 1
            &&& after.names.len() <= context.names.len() + 3
        }),
{
    let (after, fill) = fill_emitted(context, block, op, byte, chunk);
    if chunk.bytes > 1 {
        let n = context.ir.ops.now.len() as int;
        let first = context.ir.values.now.len();
        let data = TypeView::Integer((chunk.bytes * 8) as u32);
        let typed = context.with_type(data);
        interning_grows(context, data);
        staying_is_placed(context, typed, block, op);
        assert(typed.takes_before(block, op));
        let ty = typed.known_type(data);
        ones_are_small(chunk.bytes as nat);
        let ones = repeated(1, chunk.bytes as nat) as u64 as i64;
        let widening = extui_view(byte, ty);
        emission_adds(typed, block, op, widening);
        emission_is_placed(typed, block, op, widening);
        let extended = typed.emitted(block, op, widening);
        let constant = constant_view(ones, ty);
        emission_adds(extended, block, op, constant);
        emission_is_placed(extended, block, op, constant);
        let repeating = extended.emitted(block, op, constant);
        let wide = ValueId(first as u32);
        let factor = ValueId((first + 1) as u32);
        let multiplying = muli_view(wide, factor, ty);
        emission_adds(repeating, block, op, multiplying);
        emission_is_placed(repeating, block, op, multiplying);
        one_minted(first);
        one_minted(first + 1);
        one_minted(first + 2);
        growing_goes_on(context, typed, extended);
        growing_goes_on(context, extended, repeating);
        growing_goes_on(context, repeating, after);
        growing_goes_on(extended, repeating, after);
        placing_goes_on(context, typed, extended, block, op);
        placing_goes_on(context, extended, repeating, block, op);
        placing_goes_on(context, repeating, after, block, op);
        assert(widening.operands + widening.dep_operands =~= seq![byte]);
        assert(constant.operands + constant.dep_operands =~= Seq::<ValueId>::empty());
        assert(multiplying.operands + multiplying.dep_operands =~= seq![wide, factor]);
        assert(widening.result_types =~= seq![ty]);
        assert(multiplying.result_types =~= seq![ty]);
        standing_stays(extended, after, n, "builtin"@, "extui"@, seq![byte], seq![wide]);
        standing_stays(
            repeating,
            after,
            n + 1,
            "builtin"@,
            "constant"@,
            Seq::empty(),
            seq![factor],
        );
        let attributes = repeating.ir.op(OpId((n + 1) as u32))->0.attributes;
        assert(attributes == constant.attributes);
        assert(attributes[0] == ("value"@, AttrView::Int(ones as int)));
        assert(dict_lookup(attributes, "value"@) == Some(AttrView::Int(ones as int)));
        growth_keeps_types(extended, after, wide);
        assert(chunk.bytes * 8 == 8 * chunk.bytes);
    } else {
        nothing_grows(context);
        staying_is_placed(context, after, block, op);
    }
}

#[verifier::spinoff_prover]
#[verifier::rlimit(30)]
proof fn store_stands(
    context: ContextView,
    block: BlockId,
    op: OpId,
    destination: ValueId,
    fill: ValueId,
    state: Option<ValueId>,
)
    requires
        context.takes_before(block, op),
        context.has_room(2),
    ensures
        ({
            let after = (Emission { context, state }).stored(block, op, destination, fill);
            &&& grown(context, after.context)
            &&& placed(context, after.context, block, op)
            &&& after.context.takes_before(block, op)
            &&& stands(
                after.context,
                context.ir.ops.now.len() as int,
                "ptr"@,
                "store"@,
                seq![fill, destination] + chained(state),
                chained(after.state),
            )
            &&& after.state is Some <==> state is Some
            &&& after.context.ir.ops.now.len() == context.ir.ops.now.len() + 1
            &&& context.ir.values.now.len() <= after.context.ir.values.now.len()
                <= context.ir.values.now.len() + 1
            &&& after.context.types == context.types
            &&& after.context.names.len() <= context.names.len() + 1
        }),
{
    let writing = store_view(fill, destination, state);
    emission_adds(context, block, op, writing);
    emission_is_placed(context, block, op, writing);
    one_minted(context.ir.values.now.len());
    assert(writing.operands + writing.dep_operands =~= seq![fill, destination] + chained(state));
    assert(writing.result_types =~= Seq::empty());
    let after = (Emission { context, state }).stored(block, op, destination, fill);
    assert(chained(after.state) =~= minted_ids(context.ir.values.now.len(), 0) + minted_ids(
        context.ir.values.now.len(),
        writing.dep_results,
    ));
}

#[verifier::spinoff_prover]
#[verifier::rlimit(40)]
proof fn one_chunk_fills(before: Emission, site: Site, chunk: Chunk)
    requires
        before.context.takes_before(site.block, site.op),
        before.context.has_room(11),
        chunk.offset <= i64::MAX,
        chunk.bytes <= 8,
    ensures
        ({
            let after = before.filled_chunk(site, chunk);
            &&& grown(before.context, after.context)
            &&& placed(before.context, after.context, site.block, site.op)
            &&& after.context.takes_before(site.block, site.op)
            &&& fills(
                after.context,
                before.context.ir.ops.now.len() as int,
                site.source,
                site.destination,
                chunk,
                before.state,
                after.state,
            )
            &&& after.context.ir.ops.now.len() == before.context.ir.ops.now.len()
                + filling_steps(chunk)
            &&& before.context.grew(after.context, 7)
        }),
{
    reveal(fills);
    let context = before.context;
    let (block, op) = (site.block, site.op);
    let n = context.ir.ops.now.len() as int;
    address_is_made(
        context,
        block,
        op,
        site.destination,
        site.destination_ty,
        chunk.offset,
    );
    let (to, destination) = context.address(
        block,
        op,
        site.destination,
        site.destination_ty,
        chunk.offset,
    );
    fill_is_made(to, block, op, site.source, chunk);
    let (made, fill) = fill_emitted(to, block, op, site.source, chunk);
    growing_goes_on(context, to, made);
    placing_goes_on(context, to, made, block, op);
    store_stands(made, block, op, destination, fill, before.state);
    let after = before.filled_chunk(site, chunk);
    assert(after == (Emission { context: made, state: before.state }).stored(
        block,
        op,
        destination,
        fill,
    ));
    growing_goes_on(context, made, after.context);
    placing_goes_on(context, made, after.context, block, op);
    growing_goes_on(to, made, after.context);
    offset_stays(to, after.context, n, site.destination, chunk.offset, destination);
    fill_stays(made, after.context, n + steps(chunk.offset), site.source, chunk, fill);
    assert((seq![fill, destination] + chained(before.state))[0] == fill);
    assert((seq![fill, destination] + chained(before.state))[1] == destination);
}

#[verifier::opaque]
spec fn fill_start_at(begun: Emission, chunks: Seq<Chunk>, i: int) -> int
    decreases i,
{
    if i <= 0 {
        begun.context.ir.ops.now.len() as int
    } else {
        fill_start_at(begun, chunks, i - 1) + filling_steps(chunks[i - 1])
    }
}

#[verifier::opaque]
spec fn fill_state_at(begun: Emission, site: Site, chunks: Seq<Chunk>, i: int) -> Option<ValueId> {
    begun.filled(site, chunks, i).state
}

proof fn fill_starts_follow(begun: Emission, chunks: Seq<Chunk>, i: int)
    requires
        0 <= i,
    ensures
        fill_start_at(begun, chunks, 0) == begun.context.ir.ops.now.len(),
        fill_start_at(begun, chunks, i + 1) == fill_start_at(begun, chunks, i) + filling_steps(
            chunks[i],
        ),
{
    reveal_with_fuel(fill_start_at, 2);
}

proof fn fill_state_is_at(begun: Emission, site: Site, chunks: Seq<Chunk>, i: int)
    ensures
        fill_state_at(begun, site, chunks, i) == begun.filled(site, chunks, i).state,
{
    reveal(fill_state_at);
}

#[verifier::spinoff_prover]
proof fn chunks_fill(begun: Emission, site: Site, chunks: Seq<Chunk>, n: int)
    requires
        begun.context.takes_before(site.block, site.op),
        begun.context.has_room(64),
        0 <= n <= chunks.len() <= 8,
        forall|i: int|
            0 <= i < chunks.len() ==> (#[trigger] chunks[i]).bytes <= 8 && chunks[i].offset
                <= i64::MAX,
    ensures
        ({
            let after = begun.filled(site, chunks, n);
            &&& grown(begun.context, after.context)
            &&& placed(begun.context, after.context, site.block, site.op)
            &&& after.context.takes_before(site.block, site.op)
            &&& begun.context.grew(after.context, (7 * n) as nat)
            &&& after.context.ir.ops.now.len() == fill_start_at(begun, chunks, n)
            &&& after.state == fill_state_at(begun, site, chunks, n)
        }),
        forall|i: int|
            #![trigger chunks[i]]
            0 <= i < n ==> fills(
                begun.filled(site, chunks, n).context,
                fill_start_at(begun, chunks, i),
                site.source,
                site.destination,
                chunks[i],
                fill_state_at(begun, site, chunks, i),
                fill_state_at(begun, site, chunks, i + 1),
            ),
    decreases n,
{
    fill_state_is_at(begun, site, chunks, n);
    if n == 0 {
        nothing_grows(begun.context);
        staying_is_placed(begun.context, begun.context, site.block, site.op);
        fill_starts_follow(begun, chunks, 0);
    } else {
        chunks_fill(begun, site, chunks, n - 1);
        let before = begun.filled(site, chunks, n - 1);
        let after = begun.filled(site, chunks, n);
        let last = chunks[n - 1];
        assert(after == before.filled_chunk(site, last));
        one_chunk_fills(before, site, last);
        fill_starts_follow(begun, chunks, n - 1);
        filling_on(begun, site, chunks, n, before, after);
    }
}

proof fn filling_on(
    begun: Emission,
    site: Site,
    chunks: Seq<Chunk>,
    n: int,
    before: Emission,
    after: Emission,
)
    requires
        0 < n <= chunks.len(),
        grown(begun.context, before.context),
        placed(begun.context, before.context, site.block, site.op),
        grown(before.context, after.context),
        placed(before.context, after.context, site.block, site.op),
        before.context.ir.ops.now.len() <= u32::MAX,
        forall|i: int|
            #![trigger chunks[i]]
            0 <= i < n - 1 ==> fills(
                before.context,
                fill_start_at(begun, chunks, i),
                site.source,
                site.destination,
                chunks[i],
                fill_state_at(begun, site, chunks, i),
                fill_state_at(begun, site, chunks, i + 1),
            ),
        fills(
            after.context,
            fill_start_at(begun, chunks, n - 1),
            site.source,
            site.destination,
            chunks[n - 1],
            fill_state_at(begun, site, chunks, n - 1),
            fill_state_at(begun, site, chunks, n),
        ),
    ensures
        grown(begun.context, after.context),
        placed(begun.context, after.context, site.block, site.op),
        forall|i: int|
            #![trigger chunks[i]]
            0 <= i < n ==> fills(
                after.context,
                fill_start_at(begun, chunks, i),
                site.source,
                site.destination,
                chunks[i],
                fill_state_at(begun, site, chunks, i),
                fill_state_at(begun, site, chunks, i + 1),
            ),
{
    growing_goes_on(begun.context, before.context, after.context);
    placing_goes_on(begun.context, before.context, after.context, site.block, site.op);
    assert forall|i: int|
        #![trigger chunks[i]]
        0 <= i < n implies fills(
        after.context,
        fill_start_at(begun, chunks, i),
        site.source,
        site.destination,
        chunks[i],
        fill_state_at(begun, site, chunks, i),
        fill_state_at(begun, site, chunks, i + 1),
    ) by {
        if i < n - 1 {
            filling_stays(
                before.context,
                after.context,
                fill_start_at(begun, chunks, i),
                site.source,
                site.destination,
                chunks[i],
                fill_state_at(begun, site, chunks, i),
                fill_state_at(begun, site, chunks, i + 1),
            );
        }
    }
}

/// Whether `emitted` is `before` with the chunks filled that an intrinsic with
/// the operands destination, byte and size fills: the operations that fill chunk
/// `i` are those from `starts[i]` on, the first from the first number that was
/// free, the next where the last end, and they stand in this order just before
/// the intrinsic; `states[i]` is the memory state before chunk `i`.
pub open spec fn filled_by(
    before: ContextView,
    op: OpId,
    chunks: Seq<Chunk>,
    emitted: Emission,
    starts: Seq<int>,
    states: Seq<Option<ValueId>>,
) -> bool {
    let operands = before.ir.op(op)->0.operands;
    &&& starts.len() == chunks.len() + 1
    &&& states.len() == chunks.len() + 1
    &&& starts[0] == before.ir.ops.now.len()
    &&& starts[chunks.len() as int] == emitted.context.ir.ops.now.len()
    &&& states[0] == before.observed_state(op)
    &&& states[chunks.len() as int] == emitted.state
    &&& grown(before, emitted.context)
    &&& placed(before, emitted.context, before.block_of(op), op)
    &&& forall|i: int|
        #![trigger chunks[i]]
        0 <= i < chunks.len() ==> {
            &&& starts[i + 1] == starts[i] + filling_steps(chunks[i])
            &&& fills(
                emitted.context,
                starts[i],
                operands[1],
                operands[0],
                chunks[i],
                states[i],
                states[i + 1],
            )
        }
}

/// A fill that is expanded inline writes only to its destination, and only the
/// byte it is given: for each chunk of the plan it stores, at the chunk's offset
/// from the first operand, as many copies of the second as the chunk has bytes,
/// one chunk after the other on one chain of memory states.
pub proof fn inlined_fills_write_the_byte(
    fill: MemsetOp,
    before: ContextView,
    after: ContextView,
    limit: Option<AttrView>,
    widths: Option<AttrView>,
    r: Result<(), PassError>,
    bytes: u64,
)
    requires
        before.expandable(fill.0.id),
        before.has_room(64),
        fill.0.id.0 < before.ir.ops.now.len(),
        fill.expanded(before, after, limit, widths, r),
        target_failure(limit, widths) is None,
        before.known_bytes(before.ir.op(fill.0.id)->0.operands[2]) == Some(bytes),
        inline_plan(limit, widths, Some(bytes)) is Some,
    ensures
        exists|emitted: Emission, starts: Seq<int>, states: Seq<Option<ValueId>>|
            {
                &&& #[trigger] filled_by(
                    before,
                    fill.0.id,
                    inline_plan(limit, widths, Some(bytes))->0,
                    emitted,
                    starts,
                    states,
                )
                &&& finished(
                    emitted,
                    after,
                    before.block_of(fill.0.id),
                    fill.0.id,
                    before.left_state(fill.0.id),
                    r,
                )
            },
{
    let op = fill.0.id;
    let chunks = inline_plan(limit, widths, Some(bytes))->0;
    let site = before.site(op);
    let begun = Emission { context: before, state: before.observed_state(op) };
    let n = chunks.len() as int;
    inline_accesses_are_exact(limit, widths, bytes);
    assert forall|i: int| 0 <= i < chunks.len() implies (#[trigger] chunks[i]).bytes <= 8
        && chunks[i].offset <= i64::MAX by {
        plans_stay_small(limit, widths, bytes, i);
    }
    chunks_fill(begun, site, chunks, n);
    let emitted = begun.filled(site, chunks, n);
    let starts = Seq::new((n + 1) as nat, |i: int| fill_start_at(begun, chunks, i));
    let states = Seq::new((n + 1) as nat, |i: int| fill_state_at(begun, site, chunks, i));
    fill_starts_follow(begun, chunks, 0);
    fill_state_is_at(begun, site, chunks, 0);
    assert forall|i: int|
        #![trigger chunks[i]]
        0 <= i < chunks.len() implies {
        &&& starts[i + 1] == starts[i] + filling_steps(chunks[i])
        &&& fills(
            emitted.context,
            starts[i],
            before.ir.op(op)->0.operands[1],
            before.ir.op(op)->0.operands[0],
            chunks[i],
            states[i],
            states[i + 1],
        )
    } by {
        fill_starts_follow(begun, chunks, i);
    }
    assert(filled_by(before, op, chunks, emitted, starts, states));
}

/// Whether the operations from `first` on call `callee` with `destination`,
/// `second` and `size`, in this order, where `second` is first made a wider
/// integer by a `builtin.extui` if `wider` says so. The call observes `state`,
/// and leaves `left` after its result.
pub open spec fn calls_with(
    context: ContextView,
    first: int,
    callee: ValueId,
    operands: (ValueId, ValueId, ValueId),
    wider: bool,
    state: Option<ValueId>,
    left: Option<ValueId>,
) -> bool {
    let call = if wider {
        first + 1
    } else {
        first
    };
    let passed = if wider {
        context.ir.op(OpId(first as u32))->0.results[0]
    } else {
        operands.1
    };
    let result = context.ir.op(OpId(call as u32))->0.results[0];
    &&& wider ==> stands(context, first, "builtin"@, "extui"@, seq![operands.1], seq![passed])
    &&& stands(
        context,
        call,
        "func"@,
        "call"@,
        seq![callee, operands.0, passed, operands.2] + chained(state),
        seq![result] + chained(left),
    )
    &&& context.ir.ops.now.len() == call + 1
    &&& left is Some <==> state is Some
}

#[verifier::spinoff_prover]
#[verifier::rlimit(40)]
proof fn routine_is_called(
    context: ContextView,
    block: BlockId,
    op: OpId,
    name: Seq<char>,
    callee: ValueId,
    args: Seq<ValueId>,
    types: (TypeId, Seq<TypeId>),
    state: Option<ValueId>,
)
    requires
        context.takes_before(block, op),
        context.has_room(4),
        args.len() == 3,
    ensures
        ({
            let after = context.routine_called(block, op, name, callee, args, types, state);
            &&& placed(context, after.context, block, op)
            &&& calls_with(
                after.context,
                context.ir.ops.now.len() as int,
                callee,
                (args[0], args[1], args[2]),
                name == "memset"@,
                state,
                after.state,
            )
        }),
{
    let n = context.ir.ops.now.len() as int;
    let first = context.ir.values.now.len();
    let wider = name == "memset"@;
    let widening = extui_view(args[1], types.1[1]);
    let wide = ValueId(first as u32);
    one_minted(first);
    if wider {
        emission_adds(context, block, op, widening);
        emission_is_placed(context, block, op, widening);
        assert(widening.operands + widening.dep_operands =~= seq![args[1]]);
    } else {
        staying_is_placed(context, context, block, op);
    }
    let ready = if wider {
        context.emitted(block, op, widening)
    } else {
        context
    };
    let passed = if wider {
        wide
    } else {
        args[1]
    };
    let handed = if wider {
        args.update(1, wide)
    } else {
        args
    };
    let calling = call_view(callee, handed, types.0, state);
    assert(calling.regions.len() == 0);
    emission_adds(ready, block, op, calling);
    emission_is_placed(ready, block, op, calling);
    let after = ready.emitted(block, op, calling);
    placing_goes_on(context, ready, after, block, op);
    let second = ready.ir.values.now.len();
    one_minted(second);
    assert(calling.operands + calling.dep_operands =~= seq![callee, args[0], passed, args[2]]
        + chained(state));
    assert(calling.result_types =~= seq![types.0]);
    let left = match state {
        Some(_) => Some(ValueId((second + 1) as u32)),
        None => None,
    };
    let result = ValueId(second as u32);
    assert(seq![result] + chained(left) =~= minted_ids(second, 1) + minted_ids(
        second + 1,
        calling.dep_results,
    ));
    assert((seq![result] + chained(left))[0] == result);
    if wider {
        standing_stays(context.emitted(block, op, widening), after, n, "builtin"@, "extui"@, seq![
            args[1],
        ], seq![wide]);
        assert(after.ir.op(OpId(n as u32))->0.results[0] == wide);
    }
}

/// An intrinsic that becomes a call of a library routine hands it its three
/// operands in their order, the byte of a fill as a wider integer, on the chain
/// of memory states the intrinsic was on; the operations stand just before the
/// intrinsic.
pub proof fn library_calls_pass_the_operands(
    before: ContextView,
    after: ContextView,
    op: OpId,
    name: Seq<char>,
    r: Result<(), PassError>,
    module: OpId,
    callee: ValueId,
)
    requires
        before.expandable(op),
        before.has_room(64),
        op.0 < before.ir.ops.now.len(),
        library_called(before, after, op, name, r),
        before.module_around(op) == Some(module),
        ({
            let typed = before.with_routine_types();
            lambda_of(
                typed,
                module,
                name,
                typed.known_type(TypeView::Ptr(None)),
                typed.routine_params(name),
            ).1 == Ok::<ValueId, PassErrorView>(callee)
        }),
    ensures
        ({
            let typed = before.with_routine_types();
            let declared = lambda_of(
                typed,
                module,
                name,
                typed.known_type(TypeView::Ptr(None)),
                typed.routine_params(name),
            ).0;
            let operands = before.ir.op(op)->0.operands;
            exists|emitted: Emission|
                {
                    &&& #[trigger] finished(
                        emitted,
                        after,
                        before.block_of(op),
                        op,
                        before.left_state(op),
                        r,
                    )
                    &&& placed(declared, emitted.context, before.block_of(op), op)
                    &&& calls_with(
                        emitted.context,
                        declared.ir.ops.now.len() as int,
                        callee,
                        (operands[0], operands[1], operands[2]),
                        name == "memset"@,
                        before.observed_state(op),
                        emitted.state,
                    )
                }
        }),
{
    let typed = before.with_routine_types();
    let block = before.block_of(op);
    let pointer = typed.known_type(TypeView::Ptr(None));
    let params = typed.routine_params(name);
    assert(typed.takes_before(block, op));
    assert(typed.types.len() <= before.types.len() + 3);
    looking_up_keeps(typed, module, name, pointer, params, block, op);
    let declared = lambda_of(typed, module, name, pointer, params).0;
    let args = before.ir.op(op)->0.operands.take(3);
    let state = before.observed_state(op);
    routine_is_called(declared, block, op, name, callee, args, (pointer, params), state);
    let emitted = declared.routine_called(
        block,
        op,
        name,
        callee,
        args,
        (pointer, params),
        state,
    );
    assert(finished(emitted, after, block, op, before.left_state(op), r));
}

} // verus!

//! What single edits of the IR change, and what they leave alone.
use vstd::prelude::*;
use crate::context::edits::first_position;
use crate::context::edits::first_position_is_first;
use crate::context::edits::results_defined;
use crate::context::ContextView;
use crate::ids::BlockId;
use crate::ids::OpId;
use crate::ids::RegionId;
use crate::ids::TypeId;
use crate::ids::ValueId;
use crate::ir::BodyView;
use crate::ir::OpView;
use crate::ir::Parent;
use crate::ir::Value;

verus! {

/// Whether `after` has every operation but `op` as `before` has it.
pub open spec fn other_ops_stay(before: ContextView, after: ContextView, op: OpId) -> bool {
    forall|id: OpId| id != op ==> #[trigger] after.ir.op(id) == before.ir.op(id)
}

/// Whether `after` has every block but `block` as `before` has it.
pub open spec fn other_blocks_stay(before: ContextView, after: ContextView, block: BlockId) -> bool {
    forall|id: BlockId| id != block ==> #[trigger] after.ir.block(id) == before.ir.block(id)
}

/// Setting an operand makes the operation read the new value there and what it
/// read everywhere else; nothing else of it changes, and no other operation,
/// block or value does. Setting one the operation does not have changes nothing.
pub proof fn operands_are_set_one_by_one(
    context: ContextView,
    op: OpId,
    index: int,
    new: ValueId,
)
    requires
        0 <= index,
        context.ir.op(op) is Some,
    ensures
        ({
            let after = context.with_operand(op, index, new);
            let held = context.ir.op(op)->0;
            let now = after.ir.op(op)->0;
            &&& after.ir.op(op) is Some
            &&& now.operands.len() == held.operands.len()
            &&& forall|i: int|
                0 <= i < held.operands.len() ==> #[trigger] now.operands[i] == if i == index {
                    new
                } else {
                    held.operands[i]
                }
            &&& now.results == held.results
            &&& now.regions == held.regions
            &&& now.attributes == held.attributes
            &&& now.name == held.name
            &&& now.parent == held.parent
            &&& other_ops_stay(context, after, op)
            &&& after.ir.blocks == context.ir.blocks
            &&& after.ir.values == context.ir.values
            &&& after.types == context.types
        }),
{
    let after = context.with_operand(op, index, new);
    assert forall|id: OpId| id != op implies #[trigger] after.ir.op(id) == context.ir.op(id) by {
        assert(id.0 != op.0);
    }
}

/// Setting a result makes the operation give the new value there and what it gave
/// everywhere else, and makes it the definition of the new value; nothing else
/// of it changes, and no other operation or block does.
pub proof fn results_are_set_one_by_one(
    context: ContextView,
    op: OpId,
    index: int,
    new: ValueId,
)
    requires
        context.ir.op(op) is Some,
        0 <= index < context.ir.op(op)->0.results.len(),
        context.ir.op(op)->0.results[index] != new,
    ensures
        ({
            let after = context.with_result(op, index, new);
            let held = context.ir.op(op)->0;
            let now = after.ir.op(op)->0;
            &&& after.ir.op(op) is Some
            &&& now.results.len() == held.results.len()
            &&& forall|i: int|
                0 <= i < held.results.len() ==> #[trigger] now.results[i] == if i == index {
                    new
                } else {
                    held.results[i]
                }
            &&& now.operands == held.operands
            &&& now.regions == held.regions
            &&& now.attributes == held.attributes
            &&& now.name == held.name
            &&& context.ir.value(new) is Some ==> after.ir.value(new) is Some && after.ir.value(
                new,
            )->0.value.defining_op == Some(op) && after.type_of(new) == context.type_of(new)
            &&& other_ops_stay(context, after, op)
            &&& after.ir.blocks == context.ir.blocks
        }),
{
    let after = context.with_result(op, index, new);
    assert forall|id: OpId| id != op implies #[trigger] after.ir.op(id) == context.ir.op(id) by {
        assert(id.0 != op.0);
    }
}

/// Giving a value another type changes that type alone.
pub proof fn values_are_retyped_alone(context: ContextView, value: ValueId, ty: TypeId)
    requires
        context.ir.value(value) is Some,
    ensures
        ({
            let after = context.with_value_type(value, ty);
            &&& after.type_of(value) == ty
            &&& after.ir.value(value)->0.value.id == context.ir.value(value)->0.value.id
            &&& after.ir.value(value)->0.value.defining_op == context.ir.value(
                value,
            )->0.value.defining_op
            &&& forall|v: ValueId|
                v != value ==> #[trigger] after.ir.value(v) == context.ir.value(v)
            &&& after.ir.ops == context.ir.ops
            &&& after.ir.blocks == context.ir.blocks
        }),
{
    let after = context.with_value_type(value, ty);
    assert forall|v: ValueId| v != value implies #[trigger] after.ir.value(v) == context.ir.value(
        v,
    ) by {
        assert(v.0 != value.0);
    }
}

/// Giving an argument of a block another type changes it in the block and in the
/// value, and no other argument or block.
pub proof fn arguments_are_retyped_alone(
    context: ContextView,
    block: BlockId,
    index: int,
    ty: TypeId,
)
    requires
        context.ir.block(block) is Some,
        0 <= index < context.ir.block(block)->0.arguments.len(),
    ensures
        ({
            let after = context.with_argument_type(block, index, ty);
            let held = context.ir.block(block)->0;
            let now = after.ir.block(block)->0;
            let argument = held.arguments[index].id;
            &&& after.ir.block(block) is Some
            &&& now.arguments.len() == held.arguments.len()
            &&& now.arguments[index].ty == ty
            &&& now.arguments[index].id == argument
            &&& forall|i: int|
                0 <= i < held.arguments.len() && i != index ==> #[trigger] now.arguments[i]
                    == held.arguments[i]
            &&& now.operations == held.operations
            &&& context.ir.value(argument) is Some ==> after.type_of(argument) == ty
            &&& forall|v: ValueId|
                v != argument ==> #[trigger] after.ir.value(v) == context.ir.value(v)
            &&& other_blocks_stay(context, after, block)
            &&& after.ir.ops == context.ir.ops
        }),
{
    let after = context.with_argument_type(block, index, ty);
    let argument = context.ir.block(block)->0.arguments[index].id;
    assert forall|v: ValueId| v != argument implies #[trigger] after.ir.value(v)
        == context.ir.value(v) by {
        assert(v.0 != argument.0);
    }
    assert forall|id: BlockId| id != block implies #[trigger] after.ir.block(id)
        == context.ir.block(id) by {
        assert(id.0 != block.0);
    }
}

/// Putting an operation into a block puts it at its place, moves those from there
/// on by one, and makes the block what holds it; taking it out again brings back
/// the list there was. No other block changes.
pub proof fn operations_go_in_and_out_of_blocks(
    context: ContextView,
    block: BlockId,
    at: int,
    op: OpId,
)
    requires
        context.ir.op(op) is Some,
        context.ir.block(block) is Some,
        0 <= at <= context.ir.block(block)->0.operations.len(),
        !context.ir.block(block)->0.operations.contains(op),
    ensures
        ({
            let list = context.ir.block(block)->0.operations;
            let after = context.with_op_in_block(block, list.insert(at, op), op);
            let now = after.ir.block(block)->0;
            let back = after.with_op_removed(
                block,
                first_position(now.operations, op)->0,
                op,
            );
            &&& after.ir.block(block) is Some
            &&& now.operations.len() == list.len() + 1
            &&& now.operations[at] == op
            &&& forall|i: int|
                0 <= i < list.len() ==> now.operations[if i < at {
                    i
                } else {
                    i + 1
                }] == #[trigger] list[i]
            &&& now.arguments == context.ir.block(block)->0.arguments
            &&& after.ir.op(op) is Some
            &&& after.ir.op(op)->0.parent == Some(Parent::Block(block))
            &&& other_blocks_stay(context, after, block)
            &&& other_ops_stay(context, after, op)
            &&& back.ir.block(block)->0.operations == list
            &&& back.ir.op(op)->0.parent is None
        }),
{
    let list = context.ir.block(block)->0.operations;
    let after = context.with_op_in_block(block, list.insert(at, op), op);
    let now = after.ir.block(block)->0.operations;
    assert(now == list.insert(at, op));
    assert(now[at] == op);
    assert(now.contains(op));
    first_position_is_first(now, op);
    let p = first_position(now, op)->0;
    if p != at {
        if p < at {
            assert(now[p] == list[p]);
            assert(list.contains(op));
        } else {
            assert(now[at] != op);
        }
    }
    assert(now.remove(at) =~= list);
    assert forall|id: OpId| id != op implies #[trigger] after.ir.op(id) == context.ir.op(id) by {
        assert(id.0 != op.0);
    }
    assert forall|id: BlockId| id != block implies #[trigger] after.ir.block(id)
        == context.ir.block(id) by {
        assert(id.0 != block.0);
    }
}

/// Taking an operation out of a block takes that one out, keeps the order of the
/// others, and leaves the operation held by nothing.
pub proof fn removal_takes_one_operation_out(context: ContextView, block: BlockId, op: OpId)
    requires
        context.ir.op(op) is Some,
        context.ir.block(block) is Some,
        context.ir.block(block)->0.operations.contains(op),
    ensures
        ({
            let list = context.ir.block(block)->0.operations;
            let p = first_position(list, op)->0;
            let after = context.with_op_removed(block, p, op);
            &&& 0 <= p < list.len()
            &&& list[p] == op
            &&& forall|i: int| 0 <= i < p ==> list[i] != op
            &&& after.ir.block(block)->0.operations == list.take(p) + list.skip(p + 1)
            &&& after.ir.op(op) is Some
            &&& after.ir.op(op)->0.parent is None
            &&& after.ir.op(op)->0.operands == context.ir.op(op)->0.operands
            &&& other_ops_stay(context, after, op)
            &&& other_blocks_stay(context, after, block)
        }),
{
    let list = context.ir.block(block)->0.operations;
    first_position_is_first(list, op);
    let p = first_position(list, op)->0;
    let after = context.with_op_removed(block, p, op);
    assert(list.remove(p) =~= list.take(p) + list.skip(p + 1));
    assert forall|id: OpId| id != op implies #[trigger] after.ir.op(id) == context.ir.op(id) by {
        assert(id.0 != op.0);
    }
    assert forall|id: BlockId| id != block implies #[trigger] after.ir.block(id)
        == context.ir.block(id) by {
        assert(id.0 != block.0);
    }
}

/// Replacing an operation of a block puts the new one where the old one stood and
/// keeps every other in its place; the block holds the new one, and nothing holds
/// the old one any more.
pub proof fn replacement_keeps_the_place(
    context: ContextView,
    block: BlockId,
    at: int,
    old_op: OpId,
    new_op: OpId,
)
    requires
        context.ir.op(old_op) is Some,
        context.ir.op(new_op) is Some,
        old_op != new_op,
        context.ir.block(block) is Some,
        0 <= at < context.ir.block(block)->0.operations.len(),
        context.ir.block(block)->0.operations[at] == old_op,
    ensures
        ({
            let list = context.ir.block(block)->0.operations;
            let after = context.with_op_replaced(block, at, old_op, new_op);
            let now = after.ir.block(block)->0.operations;
            &&& now.len() == list.len()
            &&& now[at] == new_op
            &&& forall|i: int| 0 <= i < list.len() && i != at ==> #[trigger] now[i] == list[i]
            &&& after.ir.op(old_op)->0.parent is None
            &&& after.ir.op(new_op)->0.parent == Some(Parent::Block(block))
            &&& after.ir.op(new_op)->0.operands == context.ir.op(new_op)->0.operands
            &&& other_blocks_stay(context, after, block)
        }),
{
    let after = context.with_op_replaced(block, at, old_op, new_op);
    assert(old_op.0 != new_op.0);
    assert forall|id: BlockId| id != block implies #[trigger] after.ir.block(id)
        == context.ir.block(id) by {
        assert(id.0 != block.0);
    }
}

/// A new operation is stored under the next number as it was described, it is the
/// definition of each of its live results, and no other operation and no block
/// changes.
pub proof fn new_operations_define_their_results(context: ContextView, op: OpView, i: int)
    requires
        context.ir.ops.now.len() < u32::MAX,
        op.regions.len() == 0,
        0 <= i < op.results.len(),
        context.ir.value(op.results[i]) is Some,
    ensures
        ({
            let after = context.with_new_op(op);
            let id = OpId(context.ir.ops.now.len() as u32);
            &&& after.ir.op(id) == Some(op)
            &&& after.ir.value(op.results[i]) is Some
            &&& after.ir.value(op.results[i])->0.value.defining_op == Some(id)
            &&& after.type_of(op.results[i]) == context.type_of(op.results[i])
            &&& after.ir.blocks == context.ir.blocks
            &&& forall|other: OpId|
                other.0 < context.ir.ops.now.len() ==> #[trigger] after.ir.op(other)
                    == context.ir.op(other)
        }),
{
    crate::builder::new_op_is_live(context, op);
    let id = OpId(context.ir.ops.now.len() as u32);
    let added = context.ir.add_op(op);
    defining_defines(added, op.results, id, op.results.len(), op.results[i]);
    assert(crate::context::edits::regions_owned(
        results_defined(added, op.results, id, op.results.len()),
        op.regions,
        id,
        0,
    ) == results_defined(added, op.results, id, op.results.len()));
    assert(op.results.take(op.results.len() as int)[i] == op.results[i]);
}

proof fn defining_defines(
    ir: crate::ir::IrView,
    results: Seq<ValueId>,
    op: OpId,
    n: nat,
    value: ValueId,
)
    requires
        n <= results.len(),
        ir.value(value) is Some,
    ensures
        results_defined(ir, results, op, n).value(value) is Some,
        results_defined(ir, results, op, n).value(value)->0.value.ty == ir.value(value)->0.value.ty,
        results.take(n as int).contains(value) ==> results_defined(ir, results, op, n).value(
            value,
        )->0.value.defining_op == Some(op),
        !results.take(n as int).contains(value) ==> results_defined(ir, results, op, n).value(value)
            == ir.value(value),
    decreases n,
{
    if n > 0 {
        defining_defines(ir, results, op, (n - 1) as nat, value);
        crate::seqs::take_contains(results, n - 1);
        let before = results_defined(ir, results, op, (n - 1) as nat);
        let after = results_defined(ir, results, op, n);
        if results[n - 1] != value {
            assert(results[n - 1].0 != value.0);
            assert(after.value(value) == before.value(value));
        }
    } else {
        assert(!results.take(0).contains(value));
    }
}

/// Putting a block into a region puts it after the others; it and they stay as
/// they are, and the region is what holds it.
pub proof fn blocks_go_to_the_end_of_their_region(
    context: ContextView,
    region: RegionId,
    block: BlockId,
)
    requires
        context.ir.region(region) is Some,
        context.ir.region(region)->0.body is Blocks,
        context.ir.block(block) is Some,
    ensures
        ({
            let after = context.with_block_in_region(region, block);
            let held = context.ir.region(region)->0.body->Blocks_0;
            &&& after.ir.region(region) is Some
            &&& after.ir.region(region)->0.body == BodyView::Blocks(held.push(block))
            &&& after.ir.block(block) is Some
            &&& after.ir.block(block)->0.parent == Some(region)
            &&& after.ir.block(block)->0.operations == context.ir.block(block)->0.operations
            &&& after.ir.block(block)->0.arguments == context.ir.block(block)->0.arguments
            &&& other_blocks_stay(context, after, block)
            &&& after.ir.ops == context.ir.ops
        }),
{
    let after = context.with_block_in_region(region, block);
    reveal_with_fuel(crate::context::edits::blocks_placed, 2);
    assert(seq![block][0] == block);
    assert forall|id: BlockId| id != block implies #[trigger] after.ir.block(id)
        == context.ir.block(id) by {
        assert(id.0 != block.0);
    }
}

/// An argument placed in a block comes after those it had; the block holds the
/// value, and its operations stay.
pub proof fn arguments_go_to_the_end_of_their_block(
    context: ContextView,
    block: BlockId,
    argument: Value,
)
    requires
        context.ir.block(block) is Some,
        context.ir.value(argument.id) is Some,
    ensures
        ({
            let after = context.with_placed_argument(block, argument);
            &&& after.ir.block(block) is Some
            &&& after.ir.block(block)->0.arguments == context.ir.block(block)->0.arguments.push(
                argument,
            )
            &&& after.ir.block(block)->0.operations == context.ir.block(block)->0.operations
            &&& after.ir.value(argument.id) is Some
            &&& after.ir.value(argument.id)->0.block == Some(block)
            &&& after.ir.value(argument.id)->0.value == context.ir.value(argument.id)->0.value
            &&& other_blocks_stay(context, after, block)
        }),
{
    let after = context.with_placed_argument(block, argument);
    assert forall|id: BlockId| id != block implies #[trigger] after.ir.block(id)
        == context.ir.block(id) by {
        assert(id.0 != block.0);
    }
}

/// The memory states among some values are those of the state type, and the others
/// the rest, both in their order.
pub proof fn values_are_parted_by_their_type(
    context: ContextView,
    values: Seq<ValueId>,
    states: bool,
)
    ensures
        context.filtered(values, states) == values.filter(
            |v: ValueId| context.is_state(v) == states,
        ),
    decreases values.len(),
{
    reveal(Seq::filter);
    if values.len() > 0 {
        values_are_parted_by_their_type(context, values.drop_last(), states);
    }
}

} // verus!

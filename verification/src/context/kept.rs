//! What single edits keep: a sound context stays sound.
use vstd::prelude::*;
use crate::attributes::AttrView;
use crate::context::edits::results_defined;
use crate::context::ContextView;
use crate::ids::BlockId;
use crate::ids::OpId;
use crate::ids::RegionId;
use crate::ids::TypeId;
use crate::ids::ValueId;
use crate::ir::BodyView;
use crate::ir::OpView;
use crate::lists::MAX_IDS;

verus! {

/// Whether a change keeps a sound context sound, and every block.
pub open spec fn keeps(before: ContextView, after: ContextView) -> bool {
    before.sound() ==> after.sound() && forall|block: BlockId|
        #![trigger after.ir.block(block)]
        before.ir.block(block) is Some ==> after.ir.block(block) is Some
}

/// Two changes that keep a context, one after the other, keep it.
pub proof fn keeps_through(a: ContextView, b: ContextView, c: ContextView)
    requires
        keeps(a, b),
        keeps(b, c),
    ensures
        keeps(a, c),
{
    if a.sound() {
        assert forall|block: BlockId|
            #![trigger c.ir.block(block)]
            a.ir.block(block) is Some implies c.ir.block(block) is Some by {
            assert(b.ir.block(block) is Some);
        }
    }
}

/// The blocks that were live stay live.
pub proof fn kept_blocks(before: ContextView, after: ContextView, blocks: Seq<BlockId>)
    requires
        before.sound(),
        keeps(before, after),
        before.blocks_live(blocks),
    ensures
        after.blocks_live(blocks),
{
    assert forall|i: int| 0 <= i < blocks.len() implies after.ir.block(
        #[trigger] blocks[i],
    ) is Some by {
        assert(before.ir.block(blocks[i]) is Some);
    }
}

/// Minting a value of an interned type keeps a context sound.
pub proof fn minting_keeps_sound(context: ContextView, ty: TypeId)
    requires
        context.sound(),
        ty.0 < context.types.len(),
    ensures
        context.with_value(ty, None).sound(),
{
    let after = context.with_value(ty, None);
    assert forall|id: OpId| #[trigger] after.op_sound(id) by {
        assert(context.op_sound(id));
    }
    assert forall|id: ValueId| #[trigger] after.value_sound(id) by {
        assert(context.value_sound(id));
    }
    assert forall|id: BlockId| #[trigger] after.block_sound(id) by {
        assert(context.block_sound(id));
    }
    assert forall|id: RegionId| #[trigger] after.region_sound(id) by {
        assert(context.region_sound(id));
    }
}

/// Interning a type or a name keeps a context sound.
pub proof fn interning_keeps_sound(context: ContextView, after: ContextView)
    requires
        context.sound(),
        after.ir == context.ir,
        context.types.len() <= after.types.len(),
        context.names.len() <= after.names.len(),
    ensures
        after.sound(),
{
    assert forall|id: OpId| #[trigger] after.op_sound(id) by {
        assert(context.op_sound(id));
    }
    assert forall|id: ValueId| #[trigger] after.value_sound(id) by {
        assert(context.value_sound(id));
    }
    assert forall|id: BlockId| #[trigger] after.block_sound(id) by {
        assert(context.block_sound(id));
    }
    assert forall|id: RegionId| #[trigger] after.region_sound(id) by {
        assert(context.region_sound(id));
    }
}

/// Changing a live operation without touching its name, its regions or the
/// length of its lists, and values without touching their types, keeps a
/// context sound.
pub open spec fn reworded(before: ContextView, after: ContextView) -> bool {
    &&& after.types.len() == before.types.len()
    &&& after.names.len() == before.names.len()
    &&& after.ir.blocks == before.ir.blocks
    &&& after.ir.regions == before.ir.regions
    &&& forall|id: OpId|
        #![trigger after.ir.op(id)]
        (after.ir.op(id) is Some) == (before.ir.op(id) is Some) && (before.ir.op(id) is Some ==> {
            let a = after.ir.op(id)->0;
            let b = before.ir.op(id)->0;
            a.name == b.name && a.regions == b.regions && a.operands.len() == b.operands.len()
                && a.results.len() == b.results.len() && a.dep_operands == b.dep_operands
                && a.dep_results == b.dep_results
        })
    &&& forall|id: ValueId|
        #![trigger after.ir.value(id)]
        (after.ir.value(id) is Some) == (before.ir.value(id) is Some) && (before.ir.value(
            id,
        ) is Some ==> after.ir.value(id)->0.value.ty == before.ir.value(id)->0.value.ty)
}

/// Such a change keeps a context sound.
pub proof fn rewording_keeps_sound(before: ContextView, after: ContextView)
    requires
        before.sound(),
        reworded(before, after),
    ensures
        after.sound(),
{
    assert forall|id: OpId| #[trigger] after.op_sound(id) by {
        assert(before.op_sound(id));
        if after.ir.op(id) is Some {
            assert forall|i: int| 0 <= i < after.ir.op(id)->0.regions.len() implies after.ir.region(
                #[trigger] after.ir.op(id)->0.regions[i],
            ) is Some by {
                assert(before.ir.region(before.ir.op(id)->0.regions[i]) is Some);
            }
        }
    }
    assert forall|id: ValueId| #[trigger] after.value_sound(id) by {
        assert(before.value_sound(id));
    }
    assert forall|id: BlockId| #[trigger] after.block_sound(id) by {
        assert(before.block_sound(id));
        if after.ir.block(id) is Some {
            let ops = after.ir.block(id)->0.operations;
            assert forall|i: int| 0 <= i < ops.len() implies after.ir.op(
                #[trigger] ops[i],
            ) is Some by {
                assert(before.ir.op(ops[i]) is Some);
            }
        }
    }
    assert forall|id: RegionId| #[trigger] after.region_sound(id) by {
        assert(before.region_sound(id));
        if after.ir.region(id) is Some {
            match after.ir.region(id)->0.body {
                BodyView::Nodes(_, ops, _) => {
                    assert forall|i: int| 0 <= i < ops.len() implies after.ir.op(
                        #[trigger] ops[i],
                    ) is Some by {
                        assert(before.ir.op(ops[i]) is Some);
                    }
                },
                BodyView::Blocks(blocks) => {
                    assert forall|i: int| 0 <= i < blocks.len() implies after.ir.block(
                        #[trigger] blocks[i],
                    ) is Some by {
                        assert(before.ir.block(blocks[i]) is Some);
                    }
                },
            }
        }
    }
}

/// Replacing attributes keeps a context sound.
pub proof fn attributes_keep_sound(
    context: ContextView,
    op: OpId,
    attributes: Seq<(Seq<char>, AttrView)>,
)
    ensures
        keeps(context, context.with_op_attributes(op, attributes)),
{
    if context.sound() {
        rewording_keeps_sound(context, context.with_op_attributes(op, attributes));
    }
}

/// Replacing an operand keeps a context sound.
pub proof fn operand_keeps_sound(context: ContextView, op: OpId, index: int, new: ValueId)
    requires
        0 <= index,
    ensures
        keeps(context, context.with_operand(op, index, new)),
{
    if context.sound() {
        rewording_keeps_sound(context, context.with_operand(op, index, new));
    }
}

/// Replacing a result keeps a context sound.
pub proof fn result_keeps_sound(context: ContextView, op: OpId, index: int, new: ValueId)
    requires
        0 <= index,
    ensures
        keeps(context, context.with_result(op, index, new)),
{
    if context.sound() {
        rewording_keeps_sound(context, context.with_result(op, index, new));
    }
}

proof fn defining_is_rewording(context: ContextView, results: Seq<ValueId>, op: OpId, n: nat)
    ensures
        reworded(context, context.with_ir(results_defined(context.ir, results, op, n))),
    decreases n,
{
    if n > 0 {
        defining_is_rewording(context, results, op, (n - 1) as nat);
        let b = context.with_ir(results_defined(context.ir, results, op, (n - 1) as nat));
        let a = context.with_ir(results_defined(context.ir, results, op, n));
        assert forall|id: OpId|
            #![trigger a.ir.op(id)]
            (a.ir.op(id) is Some) == (context.ir.op(id) is Some) && (context.ir.op(id) is Some ==> {
                let x = a.ir.op(id)->0;
                let y = context.ir.op(id)->0;
                x.name == y.name && x.regions == y.regions && x.operands.len() == y.operands.len()
                    && x.results.len() == y.results.len() && x.dep_operands == y.dep_operands
                    && x.dep_results == y.dep_results
            }) by {
            assert(a.ir.op(id) == b.ir.op(id));
        }
        assert forall|id: ValueId|
            #![trigger a.ir.value(id)]
            (a.ir.value(id) is Some) == (context.ir.value(id) is Some) && (context.ir.value(
                id,
            ) is Some ==> a.ir.value(id)->0.value.ty == context.ir.value(id)->0.value.ty) by {
            assert(b.ir.value(id) is Some == (context.ir.value(id) is Some));
        }
    }
}

/// Storing an operation that owns no region keeps a context sound.
pub proof fn storing_keeps_sound(context: ContextView, op: OpView)
    requires
        context.sound(),
        op.regions.len() == 0,
        op.name.0 < context.names.len(),
        op.dep_operands <= op.operands.len() <= MAX_IDS,
        op.dep_results <= op.results.len() <= MAX_IDS,
    ensures
        context.with_new_op(op).sound(),
{
    let added = context.with_ir(context.ir.add_op(op));
    assert(added.sound()) by {
        assert forall|id: OpId| #[trigger] added.op_sound(id) by {
            assert(context.op_sound(id));
        }
        assert forall|id: ValueId| #[trigger] added.value_sound(id) by {
            assert(context.value_sound(id));
        }
        assert forall|id: BlockId| #[trigger] added.block_sound(id) by {
            assert(context.block_sound(id));
            if added.ir.block(id) is Some {
                let ops = added.ir.block(id)->0.operations;
                assert forall|i: int| 0 <= i < ops.len() implies added.ir.op(
                    #[trigger] ops[i],
                ) is Some by {
                    assert(context.ir.op(ops[i]) is Some);
                }
            }
        }
        assert forall|id: RegionId| #[trigger] added.region_sound(id) by {
            assert(context.region_sound(id));
            if added.ir.region(id) is Some {
                match added.ir.region(id)->0.body {
                    BodyView::Nodes(_, ops, _) => {
                        assert forall|i: int| 0 <= i < ops.len() implies added.ir.op(
                            #[trigger] ops[i],
                        ) is Some by {
                            assert(context.ir.op(ops[i]) is Some);
                        }
                    },
                    BodyView::Blocks(blocks) => {},
                }
            }
        }
    }
    let id = OpId(context.ir.ops.now.len() as u32);
    defining_is_rewording(added, op.results, id, op.results.len());
    rewording_keeps_sound(
        added,
        added.with_ir(results_defined(added.ir, op.results, id, op.results.len())),
    );
    interning_keeps_sound(
        added.with_ir(results_defined(added.ir, op.results, id, op.results.len())),
        context.with_new_op(op),
    );
}

/// Putting a live operation into a block keeps a context sound.
pub proof fn placing_keeps_sound(
    context: ContextView,
    block: BlockId,
    operations: Seq<OpId>,
    op: OpId,
)
    requires
        context.sound(),
        context.all_live(operations),
    ensures
        context.with_op_in_block(block, operations, op).sound(),
{
    let after = context.with_op_in_block(block, operations, op);
    assert forall|id: OpId| (#[trigger] after.ir.op(id)) is Some == (context.ir.op(id) is Some) by {}
    assert forall|id: OpId| #[trigger] after.op_sound(id) by {
        assert(context.op_sound(id));
    }
    assert forall|id: ValueId| #[trigger] after.value_sound(id) by {
        assert(context.value_sound(id));
    }
    assert forall|id: BlockId| #[trigger] after.block_sound(id) by {
        assert(context.block_sound(id));
        if after.ir.block(id) is Some {
            let ops = after.ir.block(id)->0.operations;
            assert forall|i: int| 0 <= i < ops.len() implies after.ir.op(
                #[trigger] ops[i],
            ) is Some by {
                if id == block {
                    assert(context.ir.op(operations[i]) is Some);
                } else {
                    assert(context.ir.op(ops[i]) is Some);
                }
            }
        }
    }
    assert forall|id: RegionId| #[trigger] after.region_sound(id) by {
        assert(context.region_sound(id));
        if after.ir.region(id) is Some {
            match after.ir.region(id)->0.body {
                BodyView::Nodes(_, ops, _) => {
                    assert forall|i: int| 0 <= i < ops.len() implies after.ir.op(
                        #[trigger] ops[i],
                    ) is Some by {
                        assert(context.ir.op(ops[i]) is Some);
                    }
                },
                BodyView::Blocks(blocks) => {
                    assert forall|i: int| 0 <= i < blocks.len() implies after.ir.block(
                        #[trigger] blocks[i],
                    ) is Some by {
                        assert(context.ir.block(blocks[i]) is Some);
                    }
                },
            }
        }
    }
}

} // verus!

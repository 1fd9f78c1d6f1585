//! What spilling a register does to the instructions that name it.
use vstd::prelude::*;
use crate::backend::instructions::adding_keeps_blocks;
use crate::backend::instructions::adding_keeps_old_ids;
use crate::backend::instructions::InstructionView;
use crate::backend::spill::operands_set;
use crate::backend::spill::positions_of;
use crate::backend::spill::reloaded_at;
use crate::backend::spill::results_set;
use crate::backend::spill::setting_operands_mints_nothing;
use crate::backend::spill::setting_results_mints_nothing;
use crate::backend::spill::sites_in;
use crate::backend::spill::sites_of;
use crate::backend::spill::spilled_at;
use crate::backend::spill::Home;
use crate::backend::target::TargetRegAlloc;
use crate::builder::new_op_is_live;
use crate::context::edits::first_position;
use crate::context::edits::first_position_at;
use crate::context::edits::first_position_is_first;
use crate::context::ContextView;
use crate::ids::BlockId;
use crate::ids::OpId;
use crate::ids::OpNameId;
use crate::ids::ValueId;
use crate::ir::OpView;
use crate::operation::with_op_name;

verus! {

/// The list with `new` where it had `old`.
pub open spec fn renamed(list: Seq<ValueId>, old: ValueId, new: ValueId) -> Seq<ValueId> {
    Seq::new(
        list.len(),
        |i: int|
            if list[i] == old {
                new
            } else {
                list[i]
            },
    )
}

/// Whether the operation `id` is what `instruction` describes.
pub open spec fn performs(
    context: ContextView,
    id: OpId,
    instruction: InstructionView,
) -> bool {
    &&& context.ir.op(id) is Some
    &&& context.identity(id) == instruction.identity
    &&& context.ir.op(id)->0.operands == instruction.operands
    &&& context.ir.op(id)->0.results == instruction.results
    &&& context.ir.op(id)->0.attributes == instruction.attributes
}

proof fn positions_are_all(list: Seq<ValueId>, value: ValueId, n: int)
    requires
        0 <= n <= list.len() <= usize::MAX,
    ensures
        forall|i: int|
            0 <= i < n ==> (#[trigger] list[i] == value <==> positions_of(list, value, n).contains(
                i as usize,
            )),
        forall|k: int|
            0 <= k < positions_of(list, value, n).len() ==> 0 <= (#[trigger] positions_of(
                list,
                value,
                n,
            )[k]) < n,
        (positions_of(list, value, n).len() > 0) == (exists|i: int|
            0 <= i < n && #[trigger] list[i] == value),
    decreases n,
{
    if n > 0 {
        positions_are_all(list, value, n - 1);
        let before = positions_of(list, value, n - 1);
        let after = positions_of(list, value, n);
        assert forall|i: int| 0 <= i < n implies (#[trigger] list[i] == value <==> after.contains(
            i as usize,
        )) by {
            if i < n - 1 {
                if before.contains(i as usize) {
                    let k = choose|k: int| 0 <= k < before.len() && before[k] == i as usize;
                    assert(after[k] == i as usize);
                }
                if after.contains(i as usize) {
                    let k = choose|k: int| 0 <= k < after.len() && after[k] == i as usize;
                    assert(before[k] == i as usize);
                }
            } else if list[i] == value {
                assert(after[before.len() as int] == i as usize);
            } else if after.contains(i as usize) {
                let k = choose|k: int| 0 <= k < after.len() && after[k] == i as usize;
                assert(before[k] < n - 1);
            }
        }
        if list[n - 1] == value {
            assert(after.len() > 0);
        } else if after.len() > 0 {
            let i = choose|i: int| 0 <= i < n - 1 && #[trigger] list[i] == value;
            assert(list[i] == value);
        }
    }
}

proof fn setting_operands_sets(
    context: ContextView,
    op: OpId,
    at: Seq<usize>,
    n: int,
    new: ValueId,
)
    requires
        context.ir.op(op) is Some,
        0 <= n <= at.len(),
        context.ir.op(op)->0.operands.len() <= usize::MAX,
        forall|k: int| 0 <= k < at.len() ==> (#[trigger] at[k]) < context.ir.op(op)->0.operands.len(),
    ensures
        ({
            let after = operands_set(context, op, at, n, new);
            let held = context.ir.op(op)->0;
            &&& after.ir.op(op) is Some
            &&& after.ir.op(op)->0 == (OpView { operands: after.ir.op(op)->0.operands, ..held })
            &&& after.ir.op(op)->0.operands.len() == held.operands.len()
            &&& forall|i: int|
                0 <= i < held.operands.len() ==> #[trigger] after.ir.op(op)->0.operands[i]
                    == if at.take(n).contains(i as usize) {
                    new
                } else {
                    held.operands[i]
                }
            &&& forall|id: OpId| id != op ==> #[trigger] after.ir.op(id) == context.ir.op(id)
        }),
    decreases n,
{
    if n > 0 {
        setting_operands_sets(context, op, at, n - 1, new);
        let before = operands_set(context, op, at, n - 1, new);
        let after = operands_set(context, op, at, n, new);
        let held = context.ir.op(op)->0;
        let index = at[n - 1] as int;
        assert(index < held.operands.len());
        let list = after.ir.op(op)->0.operands;
        assert(list =~= before.ir.op(op)->0.operands.update(index, new));
        assert forall|i: int| 0 <= i < held.operands.len() implies #[trigger] list[i]
            == if at.take(n).contains(i as usize) {
            new
        } else {
            held.operands[i]
        } by {
            taking_one_more(at, n, i as usize);
        }
        assert forall|id: OpId| id != op implies #[trigger] after.ir.op(id) == context.ir.op(
            id,
        ) by {
            assert(before.ir.op(id) == context.ir.op(id));
            assert(id.0 != op.0);
        }
        assert(after.ir.op(op)->0 == (OpView { operands: list, ..held }));
    } else {
        assert(forall|x: usize| !at.take(0).contains(x));
    }
}

proof fn taking_one_more(at: Seq<usize>, n: int, x: usize)
    requires
        0 < n <= at.len(),
    ensures
        at.take(n).contains(x) <==> at.take(n - 1).contains(x) || at[n - 1] == x,
{
    if at.take(n - 1).contains(x) {
        let k = choose|k: int| 0 <= k < n - 1 && (#[trigger] at.take(n - 1)[k]) == x;
        assert(at.take(n)[k] == x);
    }
    if at[n - 1] == x {
        assert(at.take(n)[n - 1] == x);
    }
    if at.take(n).contains(x) {
        let k = choose|k: int| 0 <= k < n && (#[trigger] at.take(n)[k]) == x;
        if k < n - 1 {
            assert(at.take(n - 1)[k] == x);
        }
    }
}

proof fn setting_results_sets(
    context: ContextView,
    op: OpId,
    at: Seq<usize>,
    n: int,
    new: ValueId,
)
    requires
        context.ir.op(op) is Some,
        0 <= n <= at.len(),
        context.ir.op(op)->0.results.len() <= usize::MAX,
        forall|k: int| 0 <= k < at.len() ==> (#[trigger] at[k]) < context.ir.op(op)->0.results.len(),
    ensures
        ({
            let after = results_set(context, op, at, n, new);
            let held = context.ir.op(op)->0;
            &&& after.ir.op(op) is Some
            &&& after.ir.op(op)->0 == (OpView { results: after.ir.op(op)->0.results, ..held })
            &&& after.ir.op(op)->0.results.len() == held.results.len()
            &&& forall|i: int|
                0 <= i < held.results.len() ==> #[trigger] after.ir.op(op)->0.results[i]
                    == if at.take(n).contains(i as usize) {
                    new
                } else {
                    held.results[i]
                }
            &&& forall|id: OpId| id != op ==> #[trigger] after.ir.op(id) == context.ir.op(id)
        }),
    decreases n,
{
    if n > 0 {
        setting_results_sets(context, op, at, n - 1, new);
        let before = results_set(context, op, at, n - 1, new);
        let after = results_set(context, op, at, n, new);
        let held = context.ir.op(op)->0;
        let index = at[n - 1] as int;
        assert(index < held.results.len());
        let list = after.ir.op(op)->0.results;
        assert(list =~= before.ir.op(op)->0.results.update(index, new));
        assert forall|i: int| 0 <= i < held.results.len() implies #[trigger] list[i]
            == if at.take(n).contains(i as usize) {
            new
        } else {
            held.results[i]
        } by {
            taking_one_more(at, n, i as usize);
        }
        assert forall|id: OpId| id != op implies #[trigger] after.ir.op(id) == context.ir.op(
            id,
        ) by {
            assert(before.ir.op(id) == context.ir.op(id));
            assert(id.0 != op.0);
        }
        assert(after.ir.op(op)->0 == (OpView { results: list, ..held }));
    } else {
        assert(forall|x: usize| !at.take(0).contains(x));
    }
}

/// An instruction that is added and put into a block is there as described, and
/// nothing else changes.
pub proof fn adding_performs(context: ContextView, instruction: InstructionView, block: BlockId, at: int)
    requires
        context.ir.ops.now.len() < u32::MAX,
        context.names.len() < u32::MAX,
        context.ir.block(block) is Some,
        0 <= at <= context.ir.block(block)->0.operations.len(),
    ensures
        ({
            let added = context.with_instruction(instruction);
            let after = added.with_inserted(block, at, context.next_op());
            &&& added.ir.blocks == context.ir.blocks
            &&& performs(after, context.next_op(), instruction)
            &&& after.ir.block(block) is Some
            &&& after.ir.block(block)->0.operations == context.ir.block(
                block,
            )->0.operations.insert(at, context.next_op())
            &&& after.ir.ops.now.len() == context.ir.ops.now.len() + 1
            &&& after.ir.values.now.len() == context.ir.values.now.len()
            &&& forall|id: OpId|
                id.0 < context.ir.ops.now.len() ==> #[trigger] after.ir.op(id) == context.ir.op(id)
            &&& forall|id: OpId|
                id.0 < context.ir.ops.now.len() && context.ir.op(id) is Some && context.ir.op(
                    id,
                )->0.name.0 < context.names.len() ==> #[trigger] after.identity(id)
                    == context.identity(id)
            &&& after.ir.op(context.next_op())->0.name.0 < after.names.len()
            &&& context.names.len() <= after.names.len() <= context.names.len() + 1
        }),
{
    adding_keeps_blocks(context, instruction);
    let named = with_op_name(context, instruction.identity);
    let op = OpView {
        name: OpNameId(first_position(named.names, instruction.identity)->0 as u32),
        operands: instruction.operands,
        results: instruction.results,
        regions: Seq::empty(),
        dep_operands: 0,
        dep_results: 0,
        attributes: instruction.attributes,
        parent: None,
    };
    new_op_is_live(named, op);
    assert(named.names.contains(instruction.identity)) by {
        if !context.names.contains(instruction.identity) {
            assert(named.names[context.names.len() as int] == instruction.identity);
        }
    }
    first_position_is_first(named.names, instruction.identity);
    let added = context.with_instruction(instruction);
    let after = added.with_inserted(block, at, context.next_op());
    assert forall|id: OpId| id.0 < context.ir.ops.now.len() implies #[trigger] after.ir.op(id)
        == context.ir.op(id) by {
        adding_keeps_old_ids(context, instruction, id);
    }
}

/// Putting another instruction just before one moves it by one place.
pub proof fn position_moves(held: Seq<OpId>, op: OpId, p: int, new: OpId)
    requires
        first_position(held, op) == Some(p),
        new != op,
    ensures
        0 <= p < held.len(),
        held[p] == op,
        first_position(held.insert(p, new), op) == Some(p + 1),
{
    first_position_is_first(held, op);
    let list = held.insert(p, new);
    assert(list[p + 1] == op);
    assert forall|j: int| 0 <= j < p + 1 implies list[j] != op by {
        if j < p {
            assert(list[j] == held[j]);
        }
    }
    first_position_at(list, op, p + 1);
}

/// The instructions of a block with `reload` before the one at `p` and `store`
/// after it, where there are such.
pub open spec fn around(
    held: Seq<OpId>,
    p: int,
    reload: Option<OpId>,
    store: Option<OpId>,
) -> Seq<OpId> {
    let before = match reload {
        Some(r) => seq![r],
        None => Seq::empty(),
    };
    let after = match store {
        Some(s) => seq![s],
        None => Seq::empty(),
    };
    held.take(p) + before + seq![held[p]] + after + held.skip(p + 1)
}

/// The instruction reads and writes a fresh register where it read and wrote the
/// spilled one, and nothing else of it changes. Where it read the register, the
/// fresh one is loaded from the spilled one's place just before; where it wrote
/// it, the fresh one is stored there just after. The rest of the block stays as
/// it is, and so does every other instruction.
#[verifier::spinoff_prover]
#[verifier::rlimit(40)]
pub proof fn spilled_instructions_use_a_fresh_register<T: TargetRegAlloc>(
    target: T,
    context: ContextView,
    block: BlockId,
    op: OpId,
    home: Home,
    p: int,
)
    requires
        context.ir.op(op) is Some,
        op.0 < context.ir.ops.now.len(),
        context.ir.op(op)->0.operands.len() <= usize::MAX,
        context.ir.op(op)->0.results.len() <= usize::MAX,
        context.position_in(block, op) == Some(p),
        context.ir.ops.now.len() + 2 <= u32::MAX,
        context.names.len() + 2 <= u32::MAX,
    ensures
        ({
            let after = spilled_at(target, context, block, op, home);
            let held = context.ir.op(op)->0;
            let fresh = ValueId(context.ir.values.now.len() as u32);
            let reads = held.operands.contains(home.spilled);
            let writes = held.results.contains(home.spilled);
            let first = context.next_op();
            let second = if reads {
                OpId((context.ir.ops.now.len() + 1) as u32)
            } else {
                first
            };
            &&& after.ir.op(op) is Some
            &&& after.ir.op(op)->0.operands == renamed(held.operands, home.spilled, fresh)
            &&& after.ir.op(op)->0.results == renamed(held.results, home.spilled, fresh)
            &&& after.ir.op(op)->0.name == held.name
            &&& after.ir.op(op)->0.attributes == held.attributes
            &&& after.ir.op(op)->0.regions == held.regions
            &&& after.ir.block(block) is Some
            &&& after.ir.block(block)->0.operations == around(
                context.ir.block(block)->0.operations,
                p,
                if reads {
                    Some(first)
                } else {
                    None
                },
                if writes {
                    Some(second)
                } else {
                    None
                },
            )
            &&& reads ==> performs(
                after,
                first,
                target.spill_reload(fresh, home.class, home.frame, home.offset),
            )
            &&& writes ==> performs(
                after,
                second,
                target.spill_store(fresh, home.class, home.frame, home.offset),
            )
            &&& forall|id: OpId|
                id != op && id.0 < context.ir.ops.now.len() ==> #[trigger] after.ir.op(id)
                    == context.ir.op(id)
        }),
{
    reveal(reloaded_at);
    reveal(spilled_at);
    let held = context.ir.op(op)->0;
    let list = context.ir.block(block)->0.operations;
    let fresh = context.next_value();
    let uses = context.uses_at(op, home.spilled);
    let defines = context.defines_at(op, home.spilled);
    positions_are_all(held.operands, home.spilled, held.operands.len() as int);
    positions_are_all(held.results, home.spilled, held.results.len() as int);
    let reads = held.operands.contains(home.spilled);
    let writes = held.results.contains(home.spilled);
    assert(reads == (uses.len() > 0));
    assert(writes == (defines.len() > 0));
    let minted = context.with_fresh(home.class);
    let reload = target.spill_reload(fresh, home.class, home.frame, home.offset);
    let store = target.spill_store(fresh, home.class, home.frame, home.offset);
    let first = context.next_op();
    assert(minted.ir.ops == context.ir.ops);
    assert(minted.ir.blocks == context.ir.blocks);
    assert(minted.names == context.names);
    assert(minted.ir.op(op) == context.ir.op(op));
    first_position_is_first(list, op);
    let loaded = if reads {
        minted.with_instruction_before(block, op, reload)
    } else {
        minted
    };
    assert(first != op);
    position_moves(list, op, p, first);
    if reads {
        adding_performs(minted, reload, block, p);
        assert(minted.with_instruction(reload).position_in(block, op) == Some(p));
    }
    assert(loaded.ir.op(op) == context.ir.op(op));
    setting_operands_sets(loaded, op, uses, uses.len() as int, fresh);
    setting_operands_mints_nothing(loaded, op, uses, uses.len() as int, fresh);
    let read = operands_set(loaded, op, uses, uses.len() as int, fresh);
    setting_results_sets(read, op, defines, defines.len() as int, fresh);
    setting_results_mints_nothing(read, op, defines, defines.len() as int, fresh);
    let settled = reloaded_at(target, context, block, op, home);
    assert(settled == results_set(read, op, defines, defines.len() as int, fresh));
    assert(uses.take(uses.len() as int) =~= uses);
    assert(defines.take(defines.len() as int) =~= defines);
    assert(settled.ir.op(op)->0.operands =~= renamed(held.operands, home.spilled, fresh));
    assert(settled.ir.op(op)->0.results =~= renamed(held.results, home.spilled, fresh));
    let q = if reads {
        p + 1
    } else {
        p
    };
    let middle = if reads {
        list.insert(p, first)
    } else {
        list
    };
    assert(settled.ir.block(block)->0.operations == middle);
    assert(settled.position_in(block, op) == Some(q));
    assert(settled.ir.ops.now.len() == loaded.ir.ops.now.len());
    assert(settled.names == loaded.names);
    if reads {
        assert(settled.ir.op(first) == loaded.ir.op(first));
        assert(performs(settled, first, reload));
    }
    let after = spilled_at(target, context, block, op, home);
    if writes {
        adding_performs(settled, store, block, q + 1);
        assert(settled.with_instruction(store).position_in(block, op) == Some(q));
        let second = settled.next_op();
        if reads {
            assert(after.ir.op(first) == settled.ir.op(first));
            assert(after.identity(first) == settled.identity(first));
        }
        assert(after.ir.op(op) == settled.ir.op(op));
        assert(middle.insert(q + 1, second) =~= around(
            list,
            p,
            if reads {
                Some(first)
            } else {
                None
            },
            Some(second),
        ));
    } else {
        assert(middle =~= around(
            list,
            p,
            if reads {
                Some(first)
            } else {
                None
            },
            None,
        ));
    }
    assert forall|id: OpId| id != op && id.0 < context.ir.ops.now.len() implies #[trigger] after.ir.op(
        id,
    ) == context.ir.op(id) by {
        assert(loaded.ir.op(id) == minted.ir.op(id));
        assert(read.ir.op(id) == loaded.ir.op(id));
        assert(settled.ir.op(id) == read.ir.op(id));
    }
}

proof fn sites_are_all_in(
    context: ContextView,
    block: BlockId,
    ops: Seq<OpId>,
    value: ValueId,
    n: int,
)
    requires
        0 <= n <= ops.len(),
        forall|id: OpId| (#[trigger] context.ir.op(id)) is Some ==> context.ir.op(
            id,
        )->0.operands.len() <= usize::MAX && context.ir.op(id)->0.results.len() <= usize::MAX,
    ensures
        forall|b: BlockId, op: OpId| #[trigger]
            sites_in(context, block, ops, value, n).contains((b, op)) <==> b == block && ops.take(
                n,
            ).contains(op) && context.ir.op(op) is Some && (context.ir.op(
                op,
            )->0.operands.contains(value) || context.ir.op(op)->0.results.contains(value)),
    decreases n,
{
    let all = sites_in(context, block, ops, value, n);
    if n > 0 {
        sites_are_all_in(context, block, ops, value, n - 1);
        let before = sites_in(context, block, ops, value, n - 1);
        let last = ops[n - 1];
        if context.ir.op(last) is Some {
            let o = context.ir.op(last)->0;
            positions_are_all(o.operands, value, o.operands.len() as int);
            positions_are_all(o.results, value, o.results.len() as int);
            assert(o.operands.contains(value) == (context.uses_at(last, value).len() > 0));
            assert(o.results.contains(value) == (context.defines_at(last, value).len() > 0));
        }
        assert forall|b: BlockId, op: OpId| #[trigger]
            all.contains((b, op)) <==> b == block && ops.take(n).contains(op) && context.ir.op(
                op,
            ) is Some && (context.ir.op(op)->0.operands.contains(value) || context.ir.op(
                op,
            )->0.results.contains(value)) by {
            if before.contains((b, op)) {
                let k = choose|k: int| 0 <= k < before.len() && before[k] == (b, op);
                assert(all[k] == (b, op));
            }
            if all.contains((b, op)) && !before.contains((b, op)) {
                assert(all == before.push((block, last)));
                assert(b == block && op == last);
            }
            assert(ops.take(n) =~= ops.take(n - 1).push(last));
            if ops.take(n - 1).contains(op) {
                let k = choose|k: int| 0 <= k < n - 1 && (#[trigger] ops.take(n - 1)[k]) == op;
                assert(ops.take(n)[k] == op);
            }
            if op == last {
                assert(ops.take(n)[n - 1] == op);
            }
            if ops.take(n).contains(op) && op != last {
                let k = choose|k: int| 0 <= k < n && (#[trigger] ops.take(n)[k]) == op;
                assert(ops.take(n - 1)[k] == op);
            }
            if all.len() > before.len() {
                assert(all[before.len() as int] == (block, last));
            }
        }
    }
}

/// The instructions that are spilled are those of the blocks that name the
/// register, as an operand or as a result, and no others.
pub proof fn every_instruction_that_names_it_is_spilled(
    context: ContextView,
    blocks: Seq<BlockId>,
    value: ValueId,
    n: int,
)
    requires
        0 <= n <= blocks.len(),
        forall|id: OpId| (#[trigger] context.ir.op(id)) is Some ==> context.ir.op(
            id,
        )->0.operands.len() <= usize::MAX && context.ir.op(id)->0.results.len() <= usize::MAX,
    ensures
        forall|b: BlockId, op: OpId| #[trigger]
            sites_of(context, blocks, value, n).contains((b, op)) <==> blocks.take(n).contains(b)
                && context.ir.block(b) is Some && context.ir.block(b)->0.operations.contains(op)
                && context.ir.op(op) is Some && (context.ir.op(op)->0.operands.contains(value)
                || context.ir.op(op)->0.results.contains(value)),
    decreases n,
{
    if n > 0 {
        every_instruction_that_names_it_is_spilled(context, blocks, value, n - 1);
        let last = blocks[n - 1];
        let ops = match context.ir.block(last) {
            Some(b) => b.operations,
            None => Seq::empty(),
        };
        let here = sites_in(context, last, ops, value, ops.len() as int);
        sites_are_all_in(context, last, ops, value, ops.len() as int);
        assert(ops.take(ops.len() as int) =~= ops);
        let before = sites_of(context, blocks, value, n - 1);
        let all = sites_of(context, blocks, value, n);
        assert(all == before + here);
        assert forall|b: BlockId, op: OpId| #[trigger]
            all.contains((b, op)) <==> blocks.take(n).contains(b) && context.ir.block(b) is Some
                && context.ir.block(b)->0.operations.contains(op) && context.ir.op(op) is Some && (
            context.ir.op(op)->0.operands.contains(value) || context.ir.op(
                op,
            )->0.results.contains(value)) by {
            crate::seqs::add_contains(before, here);
            assert(blocks.take(n) =~= blocks.take(n - 1).push(last));
            crate::seqs::push_contains(blocks.take(n - 1), last);
            assert(here.contains((b, op)) || !here.contains((b, op)));
        }
    } else {
        assert(blocks.take(0) =~= Seq::empty());
    }
}

} // verus!

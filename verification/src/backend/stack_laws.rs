//! Where stack allocations lie, which placeholder loads are found, and what
//! stands around a body that was given a frame.
use vstd::prelude::*;
use crate::backend::allocas::allocas_fit;
use crate::backend::allocas::allocas_of;
use crate::backend::allocas::inserted_before;
use crate::backend::allocas::AllocaState;
use crate::backend::allocas::StackAlloca;
use crate::backend::classes::PhysReg;
use crate::backend::finish::copies_in;
use crate::backend::finish::copy_failure;
use crate::backend::frame::at_least_one;
use crate::backend::frame::placed_at;
use crate::backend::frame::rounding_reaches_a_multiple;
use crate::backend::instructions::InstructionView;
use crate::backend::pass::entered;
use crate::backend::pass::exits_in;
use crate::backend::pass::exits_of;
use crate::backend::pass::first_of;
use crate::backend::pass::precede_failure;
use crate::backend::pass::preceded;
use crate::backend::pass::RegisterAllocationPass;
use crate::backend::registers::Machine;
use crate::backend::spill_laws::adding_performs;
use crate::backend::spill_laws::performs;
use crate::backend::spill_laws::position_moves;
use crate::backend::stack_args::stack_args_in;
use crate::backend::target::save_views;
use crate::backend::target::TargetRegAlloc;
use crate::context::edits::first_position_at;
use crate::context::edits::first_position_is_first;
use crate::context::ContextView;
use crate::ids::BlockId;
use crate::ids::OpId;

verus! {

/// The allocations among some instructions, in their order.
pub open spec fn allocating(context: ContextView, list: Seq<(BlockId, OpId)>, n: int) -> Seq<
    (BlockId, OpId),
> {
    list.take(n).filter(|at: (BlockId, OpId)| context.is_alloca(at.1))
}

/// Whether an allocation lies at a multiple of its alignment, at or above
/// `from`.
pub open spec fn lies_aligned(context: ContextView, piece: StackAlloca, from: int) -> bool {
    &&& piece.offset as int % at_least_one(context.alloca_align(piece.op_id)) == 0
    &&& from <= piece.offset
}

/// Every stack allocation of a function is found, in the order of the
/// instructions, with the address it gives. It lies at a multiple of its
/// alignment, above what the frame held before and above the end of every
/// allocation found before it, and the frame reaches past all of them.
pub proof fn stack_allocations_lie_apart(
    context: ContextView,
    list: Seq<(BlockId, OpId)>,
    next_offset: i64,
    n: int,
)
    requires
        0 <= n <= list.len(),
        0 <= next_offset,
        allocas_fit(context, list, AllocaState { found: Seq::empty(), next_offset }, n),
    ensures
        ({
            let after = allocas_of(
                context,
                list,
                AllocaState { found: Seq::empty(), next_offset },
                n,
            );
            let all = allocating(context, list, n);
            &&& after.found.len() == all.len()
            &&& after.next_offset >= next_offset
            &&& forall|i: int|
                #![trigger after.found[i]]
                0 <= i < after.found.len() ==> {
                    &&& (after.found[i].block, after.found[i].op_id) == all[i]
                    &&& after.found[i].value == context.ir.op(all[i].1)->0.results[0]
                    &&& lies_aligned(context, after.found[i], next_offset as int)
                    &&& after.found[i].offset + context.alloca_size(all[i].1) <= after.next_offset
                }
            &&& forall|i: int, j: int|
                #![trigger after.found[i], after.found[j]]
                0 <= i < j < after.found.len() ==> after.found[i].offset + context.alloca_size(
                    all[i].1,
                ) <= after.found[j].offset
        }),
    decreases n,
{
    reveal(Seq::filter);
    let state = AllocaState { found: Seq::empty(), next_offset };
    if n > 0 {
        stack_allocations_lie_apart(context, list, next_offset, n - 1);
        let before = allocas_of(context, list, state, n - 1);
        let after = allocas_of(context, list, state, n);
        let (block, op) = list[n - 1];
        assert(list.take(n).drop_last() =~= list.take(n - 1));
        assert(list.take(n).last() == list[n - 1]);
        if context.is_alloca(op) {
            let align = at_least_one(context.alloca_align(op));
            rounding_reaches_a_multiple(before.next_offset as int, align);
            let offset = placed_at(before.next_offset, context.alloca_align(op));
            assert(before.next_offset <= offset < before.next_offset + align);
            let all = allocating(context, list, n);
            assert(all =~= allocating(context, list, n - 1).push(list[n - 1]));
            assert forall|i: int| #![trigger after.found[i]] 0 <= i < after.found.len() implies {
                &&& (after.found[i].block, after.found[i].op_id) == all[i]
                &&& after.found[i].value == context.ir.op(all[i].1)->0.results[0]
                &&& lies_aligned(context, after.found[i], next_offset as int)
                &&& after.found[i].offset + context.alloca_size(all[i].1) <= after.next_offset
            } by {
                if i < before.found.len() {
                    assert(after.found[i] == before.found[i]);
                }
            }
            assert forall|i: int, j: int|
                #![trigger after.found[i], after.found[j]]
                0 <= i < j < after.found.len() implies after.found[i].offset + context.alloca_size(
                all[i].1,
            ) <= after.found[j].offset by {
                assert(after.found[i] == before.found[i]);
                if j < before.found.len() {
                    assert(after.found[j] == before.found[j]);
                }
            }
        }
    }
}

/// Every instruction that stands for an incoming stack argument is found, in
/// order: with what it defines, the class of that, and the place among the stack
/// arguments that its attribute gives.
pub proof fn stack_arguments_are_all_found(
    context: ContextView,
    list: Seq<(BlockId, OpId)>,
    n: int,
)
    requires
        0 <= n <= list.len(),
    ensures
        ({
            let found = stack_args_in(context, list, n);
            let all = list.take(n).filter(
                |at: (BlockId, OpId)| context.uint_attr(at.1, "abi_stack_index"@) is Some,
            );
            &&& found.len() == all.len()
            &&& forall|i: int|
                #![trigger found[i]]
                0 <= i < found.len() ==> {
                    let value = context.ir.op(all[i].1)->0.results[0];
                    &&& found[i].load == all[i].1
                    &&& found[i].value == value
                    &&& found[i].class == context.register_class(value)->0
                    &&& found[i].stack_index == (context.uint_attr(
                        all[i].1,
                        "abi_stack_index"@,
                    )->0 as u64) as usize
                }
        }),
    decreases n,
{
    reveal(Seq::filter);
    if n > 0 {
        stack_arguments_are_all_found(context, list, n - 1);
        let wanted = |at: (BlockId, OpId)|
            context.uint_attr(at.1, "abi_stack_index"@) is Some;
        assert(list.take(n).drop_last() =~= list.take(n - 1));
        assert(list.take(n).last() == list[n - 1]);
        let found = stack_args_in(context, list, n);
        let before = stack_args_in(context, list, n - 1);
        if wanted(list[n - 1]) {
            assert(list.take(n).filter(wanted) =~= list.take(n - 1).filter(wanted).push(
                list[n - 1],
            ));
            assert forall|i: int| 0 <= i < before.len() implies #[trigger] found[i]
                == before[i] by {}
        }
    }
}

/// The instructions that leave a body are its returns, in order.
pub proof fn exits_are_the_returns(
    context: ContextView,
    machine: Machine,
    list: Seq<(BlockId, OpId)>,
    n: int,
)
    requires
        0 <= n <= list.len(),
    ensures
        exits_in(context, machine, list, n) == list.take(n).filter(
            |at: (BlockId, OpId)| machine.is_return(context.identity(at.1)),
        ),
    decreases n,
{
    reveal(Seq::filter);
    if n > 0 {
        exits_are_the_returns(context, machine, list, n - 1);
        assert(list.take(n).drop_last() =~= list.take(n - 1));
        assert(list.take(n).last() == list[n - 1]);
    }
}

/// The operations a run of new ones gets.
pub open spec fn fresh_run(context: ContextView, n: int) -> Seq<OpId> {
    Seq::new(n as nat, |i: int| OpId((context.ir.ops.now.len() + i) as u32))
}

/// Instructions put before another stand directly before it, in their order, each
/// a new operation that does what was asked for; the rest of the block stays in
/// order around them, and every operation there was stays as it was.
pub proof fn put_before_means_directly_before(
    context: ContextView,
    block: BlockId,
    op: OpId,
    list: Seq<InstructionView>,
    n: int,
)
    requires
        0 <= n <= list.len(),
        context.ir.block(block) is Some,
        context.position_in(block, op) is Some,
        context.ir.ops.now.len() + n < u32::MAX,
        context.names.len() + n < u32::MAX,
        op.0 < context.ir.ops.now.len(),
    ensures
        ({
            let after = inserted_before(context, block, op, list, n);
            let held = context.ir.block(block)->0.operations;
            let p = context.position_in(block, op)->0;
            let new = fresh_run(context, n);
            &&& 0 <= p < held.len() && held[p] == op
            &&& after.ir.block(block) is Some
            &&& after.ir.block(block)->0.operations == held.take(p) + new + held.skip(p)
            &&& after.position_in(block, op) == Some(p + n)
            &&& forall|i: int|
                0 <= i < n ==> performs(after, #[trigger] new[i], list[i]) && after.ir.op(
                    new[i],
                )->0.name.0 < after.names.len()
            &&& forall|id: OpId|
                id.0 < context.ir.ops.now.len() ==> #[trigger] after.ir.op(id) == context.ir.op(id)
            &&& forall|b: BlockId|
                b != block ==> #[trigger] after.ir.block(b) == context.ir.block(b)
            &&& forall|id: OpId|
                id.0 < context.ir.ops.now.len() && context.ir.op(id) is Some && context.ir.op(
                    id,
                )->0.name.0 < context.names.len() ==> #[trigger] after.identity(id)
                    == context.identity(id)
            &&& after.ir.ops.now.len() == context.ir.ops.now.len() + n
            &&& context.names.len() <= after.names.len() <= context.names.len() + n
        }),
    decreases n,
{
    let held = context.ir.block(block)->0.operations;
    let p = context.position_in(block, op)->0;
    first_position_is_first(held, op);
    let after = inserted_before(context, block, op, list, n);
    let new = fresh_run(context, n);
    if n == 0 {
        assert(held.take(p) + new + held.skip(p) =~= held);
    } else {
        put_before_means_directly_before(context, block, op, list, n - 1);
        let here = inserted_before(context, block, op, list, n - 1);
        let before = here.ir.block(block)->0.operations;
        let made = fresh_run(context, n - 1);
        adding_performs(here, list[n - 1], block, p + n - 1);
        assert forall|b: BlockId| b != block implies #[trigger] after.ir.block(b)
            == context.ir.block(b) by {
            assert(here.ir.block(b) == context.ir.block(b));
        }
        assert forall|id: OpId|
            id.0 < context.ir.ops.now.len() && context.ir.op(id) is Some && context.ir.op(
                id,
            )->0.name.0 < context.names.len() implies #[trigger] after.identity(id)
            == context.identity(id) by {
            assert(here.ir.op(id) == context.ir.op(id));
            assert(here.identity(id) == context.identity(id));
        }
        position_moves(before, op, p + n - 1, here.next_op());
        assert(new =~= made.push(here.next_op()));
        assert(after.ir.block(block)->0.operations =~= held.take(p) + new + held.skip(p));
        assert forall|i: int| 0 <= i < n implies performs(after, #[trigger] new[i], list[i])
            && after.ir.op(new[i])->0.name.0 < after.names.len() by {
            if i < n - 1 {
                assert(new[i] == made[i]);
                assert(performs(here, made[i], list[i]));
            }
        }
    }
}

/// Whether what does `list` stands directly before `op` in its block, each a new
/// operation of those from `base` on.
pub open spec fn led_by(
    context: ContextView,
    block: BlockId,
    op: OpId,
    list: Seq<InstructionView>,
    base: nat,
) -> bool {
    context.ir.block(block) is Some && exists|p: int| #[trigger]
        led_at(context, context.ir.block(block)->0.operations, op, list, base, p)
}

/// Whether what does `list` stands at the places before `p`, where `op` is.
pub open spec fn led_at(
    context: ContextView,
    held: Seq<OpId>,
    op: OpId,
    list: Seq<InstructionView>,
    base: nat,
    p: int,
) -> bool {
    &&& list.len() <= p < held.len()
    &&& held[p] == op
    &&& forall|i: int|
        0 <= i < list.len() ==> does_anew(
            context,
            held[p - list.len() + i],
            #[trigger] list[i],
            base,
        )
}

/// Whether `id` is a new operation, of those from `base` on, that does what was
/// asked for.
pub open spec fn does_anew(
    context: ContextView,
    id: OpId,
    instruction: InstructionView,
    base: nat,
) -> bool {
    &&& base <= id.0 < context.ir.ops.now.len()
    &&& performs(context, id, instruction)
    &&& context.ir.op(id)->0.name.0 < context.names.len()
}

proof fn another_lead_keeps_it(
    context: ContextView,
    block: BlockId,
    op: OpId,
    list: Seq<InstructionView>,
    base: nat,
    other: (BlockId, OpId),
    more: Seq<InstructionView>,
)
    requires
        led_by(context, block, op, list, base),
        other.1 != op,
        other.1.0 < base <= context.ir.ops.now.len(),
        context.ir.block(other.0) is Some,
        context.position_in(other.0, other.1) is Some,
        context.ir.ops.now.len() + more.len() < u32::MAX,
        context.names.len() + more.len() < u32::MAX,
    ensures
        led_by(
            inserted_before(context, other.0, other.1, more, more.len() as int),
            block,
            op,
            list,
            base,
        ),
{
    let n = more.len() as int;
    let after = inserted_before(context, other.0, other.1, more, n);
    put_before_means_directly_before(context, other.0, other.1, more, n);
    let held = context.ir.block(block)->0.operations;
    let p = choose|p: int| #[trigger] led_at(context, held, op, list, base, p);
    let now = after.ir.block(block)->0.operations;
    let q = context.position_in(other.0, other.1)->0;
    let moved = if other.0 == block && q < p {
        p + n
    } else {
        p
    };
    if other.0 == block {
        assert(held[q] == other.1);
        assert(now == held.take(q) + fresh_run(context, n) + held.skip(q));
        if p - list.len() <= q < p {
            let i = q - (p - list.len());
            assert(does_anew(context, held[p - list.len() + i], list[i], base));
            assert(false);
        }
    }
    assert forall|i: int| 0 <= i < list.len() implies does_anew(
        after,
        now[moved - list.len() + i],
        #[trigger] list[i],
        base,
    ) by {
        let id = held[p - list.len() + i];
        assert(does_anew(context, id, list[i], base));
        assert(now[moved - list.len() + i] == id);
        assert(after.ir.op(id) == context.ir.op(id));
        assert(after.identity(id) == context.identity(id));
    }
    assert(now[moved] == op);
    assert(list.len() <= moved < now.len()) by {
        if other.0 == block {
            assert(now.len() == held.len() + n);
        } else {
            assert(now == held);
        }
    }
    assert(led_at(after, now, op, list, base, moved));
}

/// Instructions put before each of several others, none twice, stand directly
/// before every one of them, in their order.
pub proof fn every_site_is_led(
    context: ContextView,
    sites: Seq<(BlockId, OpId)>,
    list: Seq<InstructionView>,
    n: int,
)
    requires
        0 <= n <= sites.len(),
        list.len() > 0,
        precede_failure(context, sites, list, n) is None,
        context.ir.ops.now.len() + n * list.len() < u32::MAX,
        context.names.len() + n * list.len() < u32::MAX,
        forall|i: int|
            #![trigger sites[i]]
            0 <= i < n ==> sites[i].1.0 < context.ir.ops.now.len() && context.ir.block(
                sites[i].0,
            ) is Some,
        forall|i: int, j: int|
            #![trigger sites[i], sites[j]]
            0 <= i < j < n ==> sites[i].1 != sites[j].1,
    ensures
        ({
            let after = preceded(context, sites, list, n);
            &&& forall|i: int|
                #![trigger sites[i]]
                0 <= i < n ==> led_by(
                    after,
                    sites[i].0,
                    sites[i].1,
                    list,
                    context.ir.ops.now.len(),
                )
            &&& after.ir.ops.now.len() == context.ir.ops.now.len() + n * list.len()
            &&& after.names.len() <= context.names.len() + n * list.len()
            &&& forall|b: BlockId|
                context.ir.block(b) is Some ==> #[trigger] after.ir.block(b) is Some
            &&& forall|id: OpId|
                id.0 < context.ir.ops.now.len() ==> #[trigger] after.ir.op(id) == context.ir.op(id)
        }),
    decreases n,
{
    let m = list.len() as int;
    if n > 0 {
        assert((n - 1) * m + m == n * m) by (nonlinear_arith);
        assert(0 <= (n - 1) * m) by (nonlinear_arith)
            requires
                n > 0,
                m >= 0,
        ;
        every_site_is_led(context, sites, list, n - 1);
        let before = preceded(context, sites, list, n - 1);
        let after = preceded(context, sites, list, n);
        let (block, op) = sites[n - 1];
        let base = context.ir.ops.now.len();
        put_before_means_directly_before(before, block, op, list, m);
        assert forall|i: int| #![trigger sites[i]] 0 <= i < n implies led_by(
            after,
            sites[i].0,
            sites[i].1,
            list,
            base,
        ) by {
            if i < n - 1 {
                another_lead_keeps_it(
                    before,
                    sites[i].0,
                    sites[i].1,
                    list,
                    base,
                    sites[n - 1],
                    list,
                );
            } else {
                let p = before.position_in(block, op)->0;
                let held = before.ir.block(block)->0.operations;
                let now = after.ir.block(block)->0.operations;
                let new = fresh_run(before, m);
                assert(now == held.take(p) + new + held.skip(p));
                assert forall|k: int| 0 <= k < m implies does_anew(
                    after,
                    now[p + m - list.len() + k],
                    #[trigger] list[k],
                    base,
                ) by {
                    assert(now[p + k] == new[k]);
                }
                assert(led_at(after, now, op, list, base, p + m));
            }
        }
        assert forall|b: BlockId| context.ir.block(b) is Some implies #[trigger] after.ir.block(
            b,
        ) is Some by {
            assert(before.ir.block(b) is Some);
            if b != block {
                assert(after.ir.block(b) == before.ir.block(b));
            }
        }
        assert forall|id: OpId| id.0 < base implies #[trigger] after.ir.op(id)
            == context.ir.op(id) by {
            assert(before.ir.op(id) == context.ir.op(id));
        }
    }
}

/// A body that is given a frame is entered through what the target asks for: it
/// stands at the top of the entry block, in order, and what the block held
/// follows it.
pub proof fn frames_open_with_the_prologue<T: TargetRegAlloc>(
    pass: RegisterAllocationPass<T>,
    context: ContextView,
    blocks: Seq<BlockId>,
    size: u32,
    saves: Seq<(PhysReg, i64)>,
)
    requires
        blocks.len() > 0,
        context.ir.block(blocks[0]) is Some,
        context.ir.block(blocks[0])->0.operations.len() > 0,
        context.ir.block(blocks[0])->0.operations[0].0 < context.ir.ops.now.len(),
        context.ir.ops.now.len() + pass.target.prologue(pass.abi, size, save_views(saves)).len()
            < u32::MAX,
        context.names.len() + pass.target.prologue(pass.abi, size, save_views(saves)).len()
            < u32::MAX,
    ensures
        ({
            let prologue = pass.target.prologue(pass.abi, size, save_views(saves));
            let inside = entered(
                context,
                first_of(context, blocks),
                pass.frame_code(size, saves).prologue,
            );
            let new = fresh_run(context, prologue.len() as int);
            &&& inside.ir.block(blocks[0]) is Some
            &&& inside.ir.block(blocks[0])->0.operations == new + context.ir.block(
                blocks[0],
            )->0.operations
            &&& forall|i: int|
                0 <= i < prologue.len() ==> performs(inside, #[trigger] new[i], prologue[i])
        }),
{
    let prologue = pass.target.prologue(pass.abi, size, save_views(saves));
    let held = context.ir.block(blocks[0])->0.operations;
    first_position_at(held, held[0], 0);
    put_before_means_directly_before(
        context,
        blocks[0],
        held[0],
        prologue,
        prologue.len() as int,
    );
    let new = fresh_run(context, prologue.len() as int);
    assert(held.take(0) + new + held.skip(0) =~= new + held);
}

/// A body that is given a frame runs what the target asks for, in order, directly
/// before every return.
pub proof fn frames_close_before_every_return<T: TargetRegAlloc>(
    pass: RegisterAllocationPass<T>,
    context: ContextView,
    machine: Machine,
    blocks: Seq<BlockId>,
    size: u32,
    saves: Seq<(PhysReg, i64)>,
)
    requires
        pass.framing_failure(context, machine, blocks, size, saves) is None,
        ({
            let inside = entered(
                context,
                first_of(context, blocks),
                pass.target.prologue(pass.abi, size, save_views(saves)),
            );
            let epilogue = pass.target.epilogue(pass.abi, size, save_views(saves));
            let exits = exits_of(inside, machine, blocks);
            &&& epilogue.len() > 0
            &&& inside.ir.ops.now.len() + exits.len() * epilogue.len() < u32::MAX
            &&& inside.names.len() + exits.len() * epilogue.len() < u32::MAX
            &&& forall|i: int|
                #![trigger exits[i]]
                0 <= i < exits.len() ==> exits[i].1.0 < inside.ir.ops.now.len() && inside.ir.block(
                    exits[i].0,
                ) is Some
            &&& forall|i: int, j: int|
                #![trigger exits[i], exits[j]]
                0 <= i < j < exits.len() ==> exits[i].1 != exits[j].1
        }),
    ensures
        ({
            let inside = entered(
                context,
                first_of(context, blocks),
                pass.target.prologue(pass.abi, size, save_views(saves)),
            );
            let epilogue = pass.target.epilogue(pass.abi, size, save_views(saves));
            let exits = exits_of(inside, machine, blocks);
            forall|i: int|
                #![trigger exits[i]]
                0 <= i < exits.len() ==> led_by(
                    pass.framed(context, machine, blocks, size, saves),
                    exits[i].0,
                    exits[i].1,
                    epilogue,
                    inside.ir.ops.now.len(),
                )
        }),
{
    let code = pass.frame_code(size, saves);
    let inside = entered(context, first_of(context, blocks), code.prologue);
    let exits = exits_of(inside, machine, blocks);
    every_site_is_led(inside, exits, code.epilogue, exits.len() as int);
}

/// The instructions marked as copies to coalesce, in their order.
pub open spec fn marked(context: ContextView, list: Seq<(BlockId, OpId)>, n: int) -> Seq<
    (BlockId, OpId),
> {
    list.take(n).filter(|at: (BlockId, OpId)| context.attr(at.1, "coalescable_copy"@) is Some)
}

/// Every copy marked for coalescing is found, in order, with the first register
/// it reads as its source and the first it writes as its destination.
pub proof fn marked_copies_are_all_found(
    context: ContextView,
    list: Seq<(BlockId, OpId)>,
    n: int,
)
    requires
        0 <= n <= list.len(),
        copy_failure(context, list, n) is None,
    ensures
        ({
            let found = copies_in(context, list, n);
            let all = marked(context, list, n);
            &&& found.len() == all.len()
            &&& forall|i: int|
                #![trigger found[i]]
                0 <= i < found.len() ==> {
                    &&& (found[i].block, found[i].op) == all[i]
                    &&& context.registers_read(all[i].1).len() > 0
                    &&& context.registers_written(all[i].1).len() > 0
                    &&& found[i].src == context.registers_read(all[i].1)[0].0
                    &&& found[i].dst == context.registers_written(all[i].1)[0].0
                }
        }),
    decreases n,
{
    reveal(Seq::filter);
    if n > 0 {
        marked_copies_are_all_found(context, list, n - 1);
        assert(list.take(n).drop_last() =~= list.take(n - 1));
        assert(list.take(n).last() == list[n - 1]);
        let found = copies_in(context, list, n);
        let before = copies_in(context, list, n - 1);
        let all = marked(context, list, n);
        let (block, op) = list[n - 1];
        if context.is_coalescable(op) {
            assert(all =~= marked(context, list, n - 1).push(list[n - 1]));
            assert(context.endpoints(op) is Some);
            assert(found.len() == before.len() + 1);
            assert forall|i: int| #![trigger found[i]] 0 <= i < found.len() implies {
                &&& (found[i].block, found[i].op) == all[i]
                &&& context.registers_read(all[i].1).len() > 0
                &&& context.registers_written(all[i].1).len() > 0
                &&& found[i].src == context.registers_read(all[i].1)[0].0
                &&& found[i].dst == context.registers_written(all[i].1)[0].0
            } by {
                if i < before.len() {
                    assert(found[i] == before[i]);
                    assert(all[i] == marked(context, list, n - 1)[i]);
                }
            }
        } else {
            assert(all =~= marked(context, list, n - 1));
        }
    }
}

} // verus!

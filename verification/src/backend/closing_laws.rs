//! What is done around allocation: pinned slots become copies, copies within one
//! register go, the registers the caller relies on are saved, and the arguments
//! on the stack are found.
use vstd::prelude::*;
use crate::attributes::AttrView;
use crate::backend::abi::SaveStyle;
use crate::backend::classes::overlapping;
use crate::backend::classes::span_of;
use crate::backend::classes::PhysReg;
use crate::backend::finish::copy_settled;
use crate::backend::finish::is_saved;
use crate::backend::finish::same_register;
use crate::backend::finish::save_offsets;
use crate::backend::finish::saved_as;
use crate::backend::finish::saves;
use crate::backend::finish::CoalescableCopy;
use crate::backend::frame::at_least_one;
use crate::backend::frame::placed_at;
use crate::backend::frame::rounding_reaches_a_multiple;
use crate::backend::frame::FramePlan;
use crate::backend::lower::copied_at;
use crate::backend::lower::lowered_at;
use crate::backend::lower::LowerState;
use crate::backend::lower::PinView;
use crate::backend::registers::SlotKind;
use crate::backend::spill_laws::adding_performs;
use crate::backend::spill_laws::around;
use crate::backend::spill_laws::position_moves;
use crate::backend::tables::entry;
use crate::backend::target::TargetRegAlloc;
use crate::context::owned::op_owned;
use crate::context::owned::op_within;
use crate::context::ContextView;
use crate::ids::BlockId;
use crate::ids::OpId;
use crate::ids::ValueId;

verus! {

proof fn first_overlap_is_found(saved: Seq<PhysReg>, register: PhysReg)
    ensures
        match saved_as(saved, register) {
            Some(p) => saved.contains(p) && overlapping(register, p),
            None => forall|k: int|
                0 <= k < saved.len() ==> !overlapping(register, #[trigger] saved[k]),
        },
    decreases saved.len(),
{
    if saved.len() > 0 && !overlapping(register, saved[0]) {
        let rest = saved.skip(1);
        first_overlap_is_found(rest, register);
        match saved_as(rest, register) {
            Some(p) => {
                let k = choose|k: int| 0 <= k < rest.len() && rest[k] == p;
                assert(saved[k + 1] == p);
            },
            None => {
                assert forall|k: int| 0 <= k < saved.len() implies !overlapping(
                    register,
                    #[trigger] saved[k],
                ) by {
                    if k > 0 {
                        assert(rest[k - 1] == saved[k]);
                    }
                }
            },
        }
    } else if saved.len() > 0 {
        assert(saved.contains(saved[0]));
    }
}

/// Wherever an allocation uses a register that shares something with one the
/// caller relies on, the one relied on is saved; and a register is saved only if
/// the caller relies on it and the allocation uses something of it.
pub proof fn relied_on_registers_are_saved(
    assignment: Seq<(u32, PhysReg)>,
    saved: Seq<PhysReg>,
    registers: Seq<PhysReg>,
)
    requires
        saves(assignment, saved, registers),
    ensures
        forall|i: int, k: int|
            0 <= i < assignment.len() && 0 <= k < saved.len() && overlapping(
                (#[trigger] assignment[i]).1,
                #[trigger] saved[k],
            ) ==> exists|j: int, m: int|
                {
                    &&& 0 <= j < registers.len()
                    &&& 0 <= m < saved.len()
                    &&& same_register(#[trigger] registers[j], #[trigger] saved[m])
                    &&& overlapping(assignment[i].1, saved[m])
                },
        forall|j: int|
            #![trigger registers[j]]
            0 <= j < registers.len() ==> saved.contains(registers[j]) && exists|i: int|
                0 <= i < assignment.len() && overlapping(
                    (#[trigger] assignment[i]).1,
                    registers[j],
                ),
{
    let n = assignment.len() as int;
    assert forall|i: int, k: int|
        0 <= i < assignment.len() && 0 <= k < saved.len() && overlapping(
            (#[trigger] assignment[i]).1,
            #[trigger] saved[k],
        ) implies exists|j: int, m: int|
        {
            &&& 0 <= j < registers.len()
            &&& 0 <= m < saved.len()
            &&& same_register(#[trigger] registers[j], #[trigger] saved[m])
            &&& overlapping(assignment[i].1, saved[m])
        } by {
        first_overlap_is_found(saved, assignment[i].1);
        let p = saved_as(saved, assignment[i].1)->0;
        assert(is_saved(assignment, saved, p, n));
        let j = choose|j: int|
            0 <= j < registers.len() && same_register(#[trigger] registers[j], p);
        let m = choose|m: int| 0 <= m < saved.len() && saved[m] == p;
        assert(same_register(registers[j], saved[m]));
    }
    assert forall|j: int|
        #![trigger registers[j]]
        0 <= j < registers.len() implies saved.contains(registers[j]) && exists|i: int|
        0 <= i < assignment.len() && overlapping(
            (#[trigger] assignment[i]).1,
            registers[j],
        ) by {
        assert(is_saved(assignment, saved, registers[j], n));
        let i = choose|i: int|
            0 <= i < n && saved_as(saved, (#[trigger] assignment[i]).1) == Some(registers[j]);
        first_overlap_is_found(saved, assignment[i].1);
    }
}

/// Registers saved in the frame are saved in their order, each in a slot of its
/// own, aligned and past what the frame held before.
pub proof fn saved_registers_have_slots_of_their_own(
    registers: Seq<PhysReg>,
    slot_size: u32,
    next: i64,
    n: int,
)
    requires
        0 <= n <= registers.len(),
        0 <= next,
        next + (registers.len() + 1) * (2 * slot_size + 1) <= i64::MAX,
    ensures
        ({
            let (slots, end) = save_offsets(registers, SaveStyle::FrameSlots, slot_size, next, n);
            &&& slots.len() == n
            &&& next <= end <= next + n * (2 * slot_size + 1)
            &&& forall|i: int|
                #![trigger slots[i]]
                0 <= i < n ==> {
                    &&& slots[i].0 == registers[i]
                    &&& next <= slots[i].1
                    &&& slots[i].1 + slot_size <= end
                    &&& slots[i].1 as int % at_least_one(slot_size) == 0
                }
            &&& forall|i: int, j: int|
                #![trigger slots[i], slots[j]]
                0 <= i < j < n ==> slots[i].1 + slot_size <= slots[j].1
        }),
    decreases n,
{
    if n > 0 {
        saved_registers_have_slots_of_their_own(registers, slot_size, next, n - 1);
        let (before, reached) = save_offsets(
            registers,
            SaveStyle::FrameSlots,
            slot_size,
            next,
            n - 1,
        );
        let step = 2 * slot_size + 1;
        assert((n - 1) * step + step == n * step) by (nonlinear_arith);
        assert(n * step <= registers.len() * step) by (nonlinear_arith)
            requires
                n <= registers.len(),
                0 <= step,
        ;
        assert((registers.len() + 1) * step == registers.len() * step + step) by (nonlinear_arith);
        rounding_reaches_a_multiple(reached as int, at_least_one(slot_size));
        let offset = placed_at(reached, slot_size);
        assert(reached <= offset < reached + at_least_one(slot_size));
        assert(offset % at_least_one(slot_size) == 0);
        assert(offset as i64 == offset);
    }
}

/// A copy goes exactly where it is there and both its ends were given the same
/// physical register; a copy that stays is marked no longer.
pub proof fn copies_within_one_register_go(
    before: ContextView,
    after: ContextView,
    copy: CoalescableCopy,
    assignment: Seq<(u32, PhysReg)>,
)
    requires
        copy_settled(before, after, copy, assignment),
        before.ir.op(copy.op) is Some,
    ensures
        after.ir.op(copy.op) is None <==> match before.endpoints(copy.op) {
            Some((src, dst)) => match (entry(assignment, src), entry(assignment, dst)) {
                (Some(a), Some(b)) => span_of(*a.0.0, a.1) == span_of(*b.0.0, b.1),
                _ => false,
            },
            None => false,
        },
{
    let detached = match before.position_in(copy.block, copy.op) {
        Some(at) => before.with_op_removed(copy.block, at, copy.op),
        None => before,
    };
    let op = copy.op;
    if detached.ir.op(op) is Some {
        assert(op_within(detached.ir, seq![op], Seq::empty(), op, 0)) by {
            assert(seq![op].contains(op)) by {
                assert(seq![op][0] == op);
            }
        }
        assert(op_owned(detached.ir, seq![op], Seq::empty(), op));
    }
}

/// The stable area of a frame holds all that was placed in it and is a multiple
/// of the frame's alignment.
pub proof fn the_stable_area_holds_the_frame(plan: FramePlan)
    requires
        0 <= plan.next_offset <= u32::MAX,
    ensures
        plan.next_offset <= plan.stable() < plan.next_offset + at_least_one(plan.align),
        plan.stable() % at_least_one(plan.align) == 0,
{
    if plan.next_offset > 0 {
        rounding_reaches_a_multiple(plan.next_offset as int, at_least_one(plan.align));
    } else {
        vstd::arithmetic::div_mod::lemma_small_mod(0, at_least_one(plan.align) as nat);
    }
}

/// The arguments on the stack lie one slot after another above the frame; where
/// registers are pushed, the pushed ones and the return address lie between.
pub proof fn stack_arguments_lie_above_the_frame(
    plan: FramePlan,
    adjustment: u32,
    pushed: int,
    index: int,
)
    requires
        0 <= pushed,
        0 <= index,
    ensures
        plan.argument_offset(adjustment, pushed, index + 1) == plan.argument_offset(
            adjustment,
            pushed,
            index,
        ) + plan.slot_size,
        plan.save_style == SaveStyle::FrameSlots ==> plan.argument_offset(adjustment, pushed, 0)
            == adjustment,
        plan.save_style == SaveStyle::PushPop ==> plan.argument_offset(adjustment, pushed, 0)
            == adjustment + (pushed + 1) * plan.slot_size,
{
    let slot = plan.slot_size as int;
    assert((index + 1) * slot == index * slot + slot) by (nonlinear_arith);
    assert(0 * slot == 0) by (nonlinear_arith);
    assert((pushed + 1) * slot == pushed * slot + slot) by (nonlinear_arith);
}

/// A pinned slot is lowered to a copy that stands beside the instruction and is
/// marked as one that may go. Where the instruction reads the slot, the copy into
/// a fresh register stands just before it and the instruction reads the fresh
/// register; where it writes it, the instruction writes the fresh register and
/// the copy out of it stands just after. The fresh register is pinned to the
/// physical one, after the pins there were.
#[verifier::spinoff_prover]
#[verifier::rlimit(40)]
pub proof fn pinned_slots_become_copies<T: TargetRegAlloc>(
    target: T,
    state: LowerState,
    block: BlockId,
    op: OpId,
    pin: PinView,
    p: int,
)
    requires
        state.context.ir.op(op) is Some,
        op.0 < state.context.ir.ops.now.len(),
        state.context.position_in(block, op) == Some(p),
        state.context.ir.ops.now.len() < u32::MAX,
        state.context.names.len() < u32::MAX,
        !pin.def ==> pin.position < state.context.ir.op(op)->0.operands.len(),
        pin.def ==> pin.position < state.context.ir.op(op)->0.results.len(),
    ensures
        ({
            let after = lowered_at(target, state, block, op, pin);
            let held = state.context.ir.op(op)->0;
            let list = state.context.ir.block(block)->0.operations;
            let fresh = ValueId(state.context.ir.values.now.len() as u32);
            let copy = state.context.next_op();
            let expected = if pin.def {
                target.copy(pin.register.0, SlotKind::Value(pin.value), SlotKind::Value(fresh))
            } else {
                target.copy(pin.register.0, SlotKind::Value(fresh), SlotKind::Value(pin.value))
            };
            let now = after.context.ir.op(op);
            let made = after.context.ir.op(copy);
            &&& after.precolor == state.precolor.push((fresh.0, pin.register))
            &&& now is Some
            &&& now->0.operands == if pin.def {
                held.operands
            } else {
                held.operands.update(pin.position as int, fresh)
            }
            &&& now->0.results == if pin.def {
                held.results.update(pin.position as int, fresh)
            } else {
                held.results
            }
            &&& after.context.ir.block(block) is Some
            &&& after.context.ir.block(block)->0.operations == if pin.def {
                around(list, p, None, Some(copy))
            } else {
                around(list, p, Some(copy), None)
            }
            &&& made is Some
            &&& after.context.identity(copy) == expected.identity
            &&& made->0.operands == expected.operands
            &&& made->0.results == expected.results
            &&& made->0.attributes == expected.attributes.push(
                ("coalescable_copy"@, AttrView::Bool(true)),
            )
        }),
{
    reveal(copied_at);
    let context = state.context;
    let held = context.ir.op(op)->0;
    let list = context.ir.block(block)->0.operations;
    let fresh = context.next_value();
    let minted = context.with_fresh(pin.register.0);
    let copy = context.next_op();
    let expected = if pin.def {
        target.copy(pin.register.0, SlotKind::Value(pin.value), SlotKind::Value(fresh))
    } else {
        target.copy(pin.register.0, SlotKind::Value(fresh), SlotKind::Value(pin.value))
    };
    assert(minted.ir.ops == context.ir.ops);
    assert(minted.ir.blocks == context.ir.blocks);
    assert(minted.ir.op(op) == context.ir.op(op));
    assert(copy != op);
    position_moves(list, op, p, copy);
    let at = if pin.def {
        p + 1
    } else {
        p
    };
    adding_performs(minted, expected, block, at);
    assert(minted.with_instruction(expected).position_in(block, op) == Some(p));
    let placed = minted.with_instruction(expected).with_inserted(block, at, copy);
    let settled = copied_at(target, context, block, op, pin);
    assert(placed.ir.op(op) == Some(held));
    if pin.def {
        assert(settled == placed.with_result(op, pin.position as int, fresh));
        assert(settled.ir.op(op)->0.results =~= held.results.update(pin.position as int, fresh));
    } else {
        assert(settled == placed.with_operand(op, pin.position as int, fresh));
        assert(settled.ir.op(op)->0.operands =~= held.operands.update(
            pin.position as int,
            fresh,
        ));
    }
    assert(settled.ir.op(copy) == placed.ir.op(copy));
    assert(settled.names == placed.names);
    assert(settled.ir.block(block) == placed.ir.block(block));
    assert(list.insert(p, copy) =~= around(list, p, Some(copy), None));
    assert(list.insert(p + 1, copy) =~= around(list, p, None, Some(copy)));
    let marked = settled.with_coalescable(copy);
    assert(marked.ir.op(op) == settled.ir.op(op));
    assert(marked.ir.block(block) == settled.ir.block(block));
}

} // verus!

//! Pre-coloring constraints as point constraints.
//!
//! A value an instruction must read or write in a fixed register is copied in or
//! out right there, and the pin moves to the copy's own value. A register is a
//! constraint at one instruction, not a home for a whole live range, so nothing
//! else has to avoid it.
use vstd::prelude::*;
use crate::attributes::drop_attribute;
use crate::attributes::named_views;
use crate::attributes::without_attribute;
use crate::attributes::AttrView;
use crate::attributes::AttributeValue;
use crate::attributes::NamedAttribute;
use crate::backend::classes::PhysReg;
use crate::backend::classes::RegClassId;
use crate::backend::instructions::adding_keeps_blocks;
use crate::backend::instructions::adding_keeps_operations;
use crate::backend::instructions::fails;
use crate::backend::instructions::insert_after;
use crate::backend::instructions::insert_before;
use crate::backend::instructions::PassError;
use crate::backend::instructions::PassErrorView;
use crate::backend::registers::fresh_reg;
use crate::backend::registers::reg_slots;
use crate::backend::registers::slot_pin;
use crate::backend::registers::slot_views;
use crate::backend::registers::slots_of;
use crate::backend::registers::spelled_assignment;
use crate::backend::registers::Machine;
use crate::backend::registers::RegAssignment;
use crate::backend::registers::RegSlot;
use crate::backend::registers::SlotKind;
use crate::backend::registers::SlotView;
use crate::backend::spill::grown_by;
use crate::backend::tables::key_position;
use crate::backend::tables::key_position_is_first;
use crate::backend::tables::set_entry;
use crate::backend::tables::with_entry;
use crate::backend::target::reg_view;
use crate::backend::target::RegView;
use crate::backend::target::TargetRegAlloc;
use crate::context::kept::attributes_keep_sound;
use crate::context::kept::keeps;
use crate::context::kept::keeps_through;
use crate::context::kept::operand_keeps_sound;
use crate::context::kept::result_keeps_sound;
use crate::context::Context;
use crate::context::ContextView;
use crate::ids::BlockId;
use crate::ids::OpId;
use crate::ids::ValueId;
use crate::ir::copy_list;

verus! {

/// The attribute of a copy the allocator may coalesce away.
pub const COALESCABLE_COPY_ATTR: &'static str = "coalescable_copy";

impl ContextView {
    /// With `name` gone from the attributes of `op`.
    pub open spec fn without_attr(self, op: OpId, name: Seq<char>) -> Self {
        self.with_op_attributes(op, without_attribute(self.ir.op(op)->0.attributes, name))
    }

    /// With the copy `op` marked for coalescing.
    pub open spec fn with_coalescable(self, op: OpId) -> Self {
        self.with_op_attributes(
            op,
            self.ir.op(op)->0.attributes.push(("coalescable_copy"@, AttrView::Bool(true))),
        )
    }
}

/// Takes `name` off the attributes of `op`.
pub fn strip_attr(context: &mut Context, op: OpId, name: &str)
    requires
        old(context).inv(),
        old(context)@.ir.op(op) is Some,
    ensures
        final(context).inv(),
        keeps(old(context)@, final(context)@),
        final(context)@ == old(context)@.without_attr(op, name@),
{
    proof {
        attributes_keep_sound(
            context@,
            op,
            without_attribute(context@.ir.op(op)->0.attributes, name@),
        );
    }
    let left = drop_attribute(&context.op_attributes(op), name);
    context.set_op_attributes(op, left);
}

/// Marks a copy the allocator may coalesce away: it reads the endpoints as an
/// affinity and erases the copy when both land in one register.
pub fn mark_coalescable(context: &mut Context, op: OpId)
    requires
        old(context).inv(),
        old(context)@.ir.op(op) is Some,
    ensures
        final(context).inv(),
        keeps(old(context)@, final(context)@),
        final(context)@ == old(context)@.with_coalescable(op),
{
    let mut attributes = context.op_attributes(op);
    let ghost held = named_views(attributes@);
    let mark = NamedAttribute::new("coalescable_copy", AttributeValue::Bool(true));
    let ghost added = mark@;
    attributes.push(mark);
    assert(named_views(attributes@) =~= held.push(added));
    proof {
        attributes_keep_sound(context@, op, held.push(added));
    }
    context.set_op_attributes(op, attributes);
}

/// One pinned slot of an instruction.
#[derive(Debug, Clone, Copy)]
pub struct PinSite {
    pub value: ValueId,
    pub class: RegClassId,
    pub index: u16,
    pub position: usize,
    pub def: bool,
}

/// What a pinned slot says.
pub ghost struct PinView {
    pub value: ValueId,
    pub register: RegView,
    pub position: usize,
    pub def: bool,
}

impl View for PinSite {
    type V = PinView;

    open spec fn view(&self) -> PinView {
        PinView {
            value: self.value,
            register: (self.class@, self.index),
            position: self.position,
            def: self.def,
        }
    }
}

/// What a slot is pinned to, where it holds a value and is pinned at all.
pub open spec fn pin_of(context: ContextView, op: OpId, slot: SlotView) -> Option<PinView> {
    match (slot.slot, context.slot_pin(op, slot.port.name@), slot.position) {
        (SlotKind::Value(value), Some(register), Some(position)) => Some(
            PinView { value, register, position, def: slot.port.def },
        ),
        _ => None,
    }
}

/// The pins of the first `n` of `slots`.
pub open spec fn pins_in(context: ContextView, op: OpId, slots: Seq<SlotView>, n: int) -> Seq<
    PinView,
>
    decreases n,
{
    if n <= 0 {
        Seq::empty()
    } else {
        let before = pins_in(context, op, slots, n - 1);
        match pin_of(context, op, slots[n - 1]) {
            Some(pin) => before.push(pin),
            None => before,
        }
    }
}

/// The pinned slots of `op`.
pub open spec fn pins_of(context: ContextView, machine: Machine, op: OpId) -> Seq<PinView> {
    let slots = slots_of(context, machine, op);
    pins_in(context, op, slots, slots.len() as int)
}

/// A list of pinned slots, by what they say.
pub open spec fn pin_views(list: Seq<PinSite>) -> Seq<PinView> {
    list.map_values(|p: PinSite| p@)
}

fn pinned_slots(context: &Context, machine: &Machine, op: OpId) -> (r: Vec<PinSite>)
    requires
        context.inv(),
        context@.readable(op),
    ensures
        pin_views(r@) == pins_of(context@, *machine, op),
{
    let slots = reg_slots(context, machine, op);
    let ghost all = slots_of(context@, *machine, op);
    let mut r: Vec<PinSite> = Vec::new();
    let mut i: usize = 0;
    assert(pin_views(r@) =~= pins_in(context@, op, all, 0));
    while i < slots.len()
        invariant
            context.inv(),
            i <= slots.len(),
            all == slot_views(slots@),
            pin_views(r@) =~= pins_in(context@, op, all, i as int),
        decreases slots.len() - i,
    {
        assert(all[i as int] == slots@[i as int]@);
        let ghost before = pin_views(r@);
        let slot = slots[i];
        let pin = slot_pin(context, op, slot.port.name);
        if let (RegSlot::Value(value), Some((class, index)), Some(position)) = (
            slot.slot,
            pin,
            slot.position,
        ) {
            let site = PinSite { value, class, index, position, def: slot.port.def };
            r.push(site);
            assert(pin_views(r@) =~= before.push(site@));
        }
        i += 1;
    }
    r
}

/// What lowering changes: the IR, and where the fresh registers are pinned.
pub ghost struct LowerState {
    pub context: ContextView,
    pub precolor: Seq<(u32, RegView)>,
}

/// The IR with the copy of one pinned slot in place, and before it is marked.
#[verifier::opaque]
pub open spec fn copied_at<T: TargetRegAlloc>(
    target: T,
    context: ContextView,
    block: BlockId,
    op: OpId,
    pin: PinView,
) -> ContextView {
    let fixed = context.next_value();
    let minted = context.with_fresh(pin.register.0);
    if pin.def {
        minted.with_instruction_after(
            block,
            op,
            target.copy(
                pin.register.0,
                SlotKind::Value(pin.value),
                SlotKind::Value(fixed),
            ),
        ).with_result(op, pin.position as int, fixed)
    } else {
        minted.with_instruction_before(
            block,
            op,
            target.copy(
                pin.register.0,
                SlotKind::Value(fixed),
                SlotKind::Value(pin.value),
            ),
        ).with_operand(op, pin.position as int, fixed)
    }
}

/// After one pinned slot was lowered: the value is copied to or from a fresh
/// one, and the fresh one is pinned.
pub open spec fn lowered_at<T: TargetRegAlloc>(
    target: T,
    state: LowerState,
    block: BlockId,
    op: OpId,
    pin: PinView,
) -> LowerState {
    LowerState {
        context: copied_at(target, state.context, block, op, pin).with_coalescable(
            state.context.next_op(),
        ),
        precolor: state.precolor.push((state.context.next_value().0, pin.register)),
    }
}

/// Why a pinned slot of `op` cannot be lowered: the block does not hold it.
pub open spec fn pin_failure(context: ContextView, block: BlockId, op: OpId, pin: PinView) -> Option<
    PassErrorView,
> {
    if context.position_in(block, op) is None {
        Some(PassErrorView::RewriteFailed(op))
    } else {
        None
    }
}

/// Lowering one slot mints one value and one operation, and takes no operation
/// away.
pub proof fn lowering_mints_little<T: TargetRegAlloc>(
    target: T,
    state: LowerState,
    block: BlockId,
    op: OpId,
    pin: PinView,
    other: OpId,
)
    ensures
        grown_by(state.context, lowered_at(target, state, block, op, pin).context, 1, 1),
        state.context.ir.op(other) is Some ==> lowered_at(
            target,
            state,
            block,
            op,
            pin,
        ).context.ir.op(other) is Some,
{
    reveal(copied_at);
    let fixed = state.context.next_value();
    let minted = state.context.with_fresh(pin.register.0);
    let copy = if pin.def {
        target.copy(pin.register.0, SlotKind::Value(pin.value), SlotKind::Value(fixed))
    } else {
        target.copy(pin.register.0, SlotKind::Value(fixed), SlotKind::Value(pin.value))
    };
    adding_keeps_blocks(minted, copy);
    adding_keeps_operations(minted, copy, other);
}

fn lower_slot<T: TargetRegAlloc>(
    target: &T,
    context: &mut Context,
    block: BlockId,
    op: OpId,
    pin: &PinSite,
) -> (r: Result<ValueId, PassError>)
    requires
        old(context).inv(),
        old(context)@.has_room(1),
        old(context)@.ir.op(op) is Some,
    ensures
        final(context).inv(),
        keeps(old(context)@, final(context)@),
        match pin_failure(old(context)@, block, op, pin@) {
            Some(e) => fails(r, e),
            None => r is Ok && r->Ok_0 == old(context)@.next_value() && final(context)@
                == copied_at(*target, old(context)@, block, op, pin@).with_coalescable(
                old(context)@.next_op(),
            ),
        },
{
    reveal(copied_at);
    let ghost before = context@;
    let fixed = fresh_reg(context, pin.class);
    let ghost minted = context@;
    if pin.def {
        let copy = target.emit_copy(pin.class, RegSlot::Value(pin.value), RegSlot::Value(fixed));
        proof {
            adding_keeps_operations(minted, copy@, minted.next_op());
        }
        let ghost made = copy@;
        let id = match insert_after(context, block, op, copy) {
            Ok(id) => id,
            Err(e) => {
                proof {
                    keeps_through(before, minted, context@);
                }
                return Err(e);
            },
        };
        let ghost placed = context@;
        proof {
            keeps_through(before, minted, placed);
            result_keeps_sound(placed, op, pin.position as int, fixed);
        }
        context.set_op_result(op, pin.position, fixed);
        proof {
            keeps_through(before, placed, context@);
        }
        let ghost read = context@;
        mark_coalescable(context, id);
        proof {
            keeps_through(before, read, context@);
        }
    } else {
        let copy = target.emit_copy(pin.class, RegSlot::Value(fixed), RegSlot::Value(pin.value));
        proof {
            adding_keeps_operations(minted, copy@, minted.next_op());
        }
        let id = match insert_before(context, block, op, copy) {
            Ok(id) => id,
            Err(e) => {
                proof {
                    keeps_through(before, minted, context@);
                }
                return Err(e);
            },
        };
        let ghost placed = context@;
        proof {
            keeps_through(before, minted, placed);
            operand_keeps_sound(placed, op, pin.position as int, fixed);
        }
        context.set_op_operand(op, pin.position, fixed);
        proof {
            keeps_through(before, placed, context@);
        }
        let ghost read = context@;
        mark_coalescable(context, id);
        proof {
            keeps_through(before, read, context@);
        }
    }
    Ok(fixed)
}

/// After the first `n` of `pins` of one instruction were lowered.
pub open spec fn pins_lowered<T: TargetRegAlloc>(
    target: T,
    state: LowerState,
    block: BlockId,
    op: OpId,
    pins: Seq<PinView>,
    n: int,
) -> LowerState
    decreases n,
{
    if n <= 0 {
        state
    } else {
        lowered_at(
            target,
            pins_lowered(target, state, block, op, pins, n - 1),
            block,
            op,
            pins[n - 1],
        )
    }
}

/// Why the first of the first `n` of `pins` that cannot be lowered cannot.
pub open spec fn pins_failure<T: TargetRegAlloc>(
    target: T,
    state: LowerState,
    block: BlockId,
    op: OpId,
    pins: Seq<PinView>,
    n: int,
) -> Option<PassErrorView>
    decreases n,
{
    if n <= 0 {
        None
    } else {
        match pins_failure(target, state, block, op, pins, n - 1) {
            Some(e) => Some(e),
            None => pin_failure(
                pins_lowered(target, state, block, op, pins, n - 1).context,
                block,
                op,
                pins[n - 1],
            ),
        }
    }
}

proof fn pins_failure_stays<T: TargetRegAlloc>(
    target: T,
    state: LowerState,
    block: BlockId,
    op: OpId,
    pins: Seq<PinView>,
    n: int,
    m: int,
)
    requires
        0 < n <= m,
        pins_failure(target, state, block, op, pins, n) is Some,
    ensures
        pins_failure(target, state, block, op, pins, m) == pins_failure(
            target,
            state,
            block,
            op,
            pins,
            n,
        ),
    decreases m - n,
{
    if n < m {
        pins_failure_stays(target, state, block, op, pins, n, m - 1);
    }
}

/// Lowering `n` slots mints `n` values and operations, and takes no operation
/// away.
pub proof fn lowering_mints_by_slot<T: TargetRegAlloc>(
    target: T,
    state: LowerState,
    block: BlockId,
    op: OpId,
    pins: Seq<PinView>,
    n: int,
    other: OpId,
)
    requires
        0 <= n,
    ensures
        grown_by(state.context, pins_lowered(target, state, block, op, pins, n).context, n, n),
        state.context.ir.op(other) is Some ==> pins_lowered(
            target,
            state,
            block,
            op,
            pins,
            n,
        ).context.ir.op(other) is Some,
    decreases n,
{
    if n > 0 {
        lowering_mints_by_slot(target, state, block, op, pins, n - 1, other);
        lowering_mints_little(
            target,
            pins_lowered(target, state, block, op, pins, n - 1),
            block,
            op,
            pins[n - 1],
            other,
        );
    }
}

/// The entries of a table, each register by what its class record says.
pub open spec fn precolor_views(list: Seq<(u32, PhysReg)>) -> Seq<(u32, RegView)> {
    list.map_values(|e: (u32, PhysReg)| (e.0, reg_view(e.1)))
}

fn lower_pins<T: TargetRegAlloc>(
    target: &T,
    context: &mut Context,
    block: BlockId,
    op: OpId,
    pins: &Vec<PinSite>,
    precolor: &mut Vec<(u32, PhysReg)>,
) -> (r: Result<(), PassError>)
    requires
        old(context).inv(),
        old(context)@.has_room(pins@.len() as int),
        old(context)@.ir.op(op) is Some,
    ensures
        final(context).inv(),
        keeps(old(context)@, final(context)@),
        ({
            let state = LowerState {
                context: old(context)@,
                precolor: precolor_views(old(precolor)@),
            };
            let views = pin_views(pins@);
            match pins_failure(*target, state, block, op, views, views.len() as int) {
                Some(e) => fails(r, e),
                None => r is Ok && pins_lowered(
                    *target,
                    state,
                    block,
                    op,
                    views,
                    views.len() as int,
                ) == (LowerState {
                    context: final(context)@,
                    precolor: precolor_views(final(precolor)@),
                }),
            }
        }),
{
    let ghost state = LowerState { context: context@, precolor: precolor_views(precolor@) };
    let ghost views = pin_views(pins@);
    let mut i: usize = 0;
    while i < pins.len()
        invariant
            i <= pins.len(),
            context.inv(),
            keeps(old(context)@, context@),
            views == pin_views(pins@),
            state == (LowerState {
                context: old(context)@,
                precolor: precolor_views(old(precolor)@),
            }),
            state.context.has_room(pins@.len() as int),
            state.context.ir.op(op) is Some,
            pins_failure(*target, state, block, op, views, i as int) is None,
            pins_lowered(*target, state, block, op, views, i as int) == (LowerState {
                context: context@,
                precolor: precolor_views(precolor@),
            }),
        decreases pins.len() - i,
    {
        assert(views[i as int] == pins@[i as int]@);
        proof {
            lowering_mints_by_slot(*target, state, block, op, views, i as int, op);
        }
        let ghost entries = precolor_views(precolor@);
        match lower_slot(target, context, block, op, &pins[i]) {
            Ok(fixed) => {
                precolor.push((fixed.0, (pins[i].class, pins[i].index)));
                assert(precolor_views(precolor@) =~= entries.push(
                    (fixed.0, views[i as int].register),
                ));
            },
            Err(e) => {
                proof {
                    pins_failure_stays(
                        *target,
                        state,
                        block,
                        op,
                        views,
                        i + 1,
                        views.len() as int,
                    );
                }
                return Err(e);
            },
        }
        i += 1;
    }
    Ok(())
}

/// One instruction that carries pins.
#[derive(Debug)]
pub struct PinnedOp {
    pub block: BlockId,
    pub op: OpId,
    pub pins: Vec<PinSite>,
}

/// What is pinned of one instruction.
pub ghost struct PinnedView {
    pub block: BlockId,
    pub op: OpId,
    pub pins: Seq<PinView>,
}

impl View for PinnedOp {
    type V = PinnedView;

    open spec fn view(&self) -> PinnedView {
        PinnedView { block: self.block, op: self.op, pins: pin_views(self.pins@) }
    }
}

/// The first `n` of `ops` that carry pins.
pub open spec fn pinned_in(
    context: ContextView,
    machine: Machine,
    block: BlockId,
    ops: Seq<OpId>,
    n: int,
) -> Seq<PinnedView>
    decreases n,
{
    if n <= 0 {
        Seq::empty()
    } else {
        let before = pinned_in(context, machine, block, ops, n - 1);
        let op = ops[n - 1];
        if context.attr(op, "pins"@) is Some {
            before.push(PinnedView { block, op, pins: pins_of(context, machine, op) })
        } else {
            before
        }
    }
}

/// The instructions of the first `n` of `blocks` that carry pins, in order.
pub open spec fn pinned_of(
    context: ContextView,
    machine: Machine,
    blocks: Seq<BlockId>,
    n: int,
) -> Seq<PinnedView>
    decreases n,
{
    if n <= 0 {
        Seq::empty()
    } else {
        let ops = context.ir.block(blocks[n - 1])->0.operations;
        pinned_of(context, machine, blocks, n - 1) + pinned_in(
            context,
            machine,
            blocks[n - 1],
            ops,
            ops.len() as int,
        )
    }
}

/// A list of instructions that carry pins, by what they say.
pub open spec fn pinned_views(list: Seq<PinnedOp>) -> Seq<PinnedView> {
    list.map_values(|p: PinnedOp| p@)
}

fn pinned_ops(context: &Context, machine: &Machine, blocks: &Vec<BlockId>) -> (r: Vec<PinnedOp>)
    requires
        context.inv(),
        context@.sound(),
        context@.blocks_live(blocks@),
    ensures
        pinned_views(r@) == pinned_of(context@, *machine, blocks@, blocks@.len() as int),
        forall|k: int| 0 <= k < r@.len() ==> context@.ir.op((#[trigger] r@[k]).op) is Some,
{
    let mut r: Vec<PinnedOp> = Vec::new();
    let mut i: usize = 0;
    assert(pinned_views(r@) =~= Seq::empty());
    while i < blocks.len()
        invariant
            context.inv(),
            context@.sound(),
            context@.blocks_live(blocks@),
            i <= blocks.len(),
            pinned_views(r@) =~= pinned_of(context@, *machine, blocks@, i as int),
            forall|k: int| 0 <= k < r@.len() ==> context@.ir.op((#[trigger] r@[k]).op) is Some,
        decreases blocks.len() - i,
    {
        let block = blocks[i];
        assert(context@.ir.block(blocks@[i as int]) is Some);
        assert(context@.block_sound(block));
        let ops = copy_list(&context.block_ref(block).operations);
        let ghost before = pinned_views(r@);
        let mut j: usize = 0;
        while j < ops.len()
            invariant
                context.inv(),
                context@.sound(),
                context@.all_live(ops@),
                j <= ops.len(),
                pinned_views(r@) =~= before + pinned_in(
                    context@,
                    *machine,
                    block,
                    ops@,
                    j as int,
                ),
                forall|k: int| 0 <= k < r@.len() ==> context@.ir.op((#[trigger] r@[k]).op) is Some,
            decreases ops.len() - j,
        {
            let op = ops[j];
            assert(context@.ir.op(ops@[j as int]) is Some);
            assert(context@.op_sound(op));
            let ghost held = pinned_views(r@);
            if context.with_attr(op, "pins").is_some() {
                let pinned = PinnedOp { block, op, pins: pinned_slots(context, machine, op) };
                let ghost view = pinned@;
                r.push(pinned);
                assert(pinned_views(r@) =~= held.push(view));
            }
            j += 1;
        }
        i += 1;
    }
    r
}

/// After one instruction was lowered: its slots, and then its pins are gone.
#[verifier::opaque]
pub open spec fn op_lowered<T: TargetRegAlloc>(
    target: T,
    state: LowerState,
    pinned: PinnedView,
) -> LowerState {
    let after = pins_lowered(
        target,
        state,
        pinned.block,
        pinned.op,
        pinned.pins,
        pinned.pins.len() as int,
    );
    LowerState { context: after.context.without_attr(pinned.op, "pins"@), ..after }
}

/// After the first `n` of `plan` were lowered.
pub open spec fn ops_lowered<T: TargetRegAlloc>(
    target: T,
    state: LowerState,
    plan: Seq<PinnedView>,
    n: int,
) -> LowerState
    decreases n,
{
    if n <= 0 {
        state
    } else {
        op_lowered(target, ops_lowered(target, state, plan, n - 1), plan[n - 1])
    }
}

/// Why the first of the first `n` of `plan` that cannot be lowered cannot.
pub open spec fn lower_failure<T: TargetRegAlloc>(
    target: T,
    state: LowerState,
    plan: Seq<PinnedView>,
    n: int,
) -> Option<PassErrorView>
    decreases n,
{
    if n <= 0 {
        None
    } else {
        match lower_failure(target, state, plan, n - 1) {
            Some(e) => Some(e),
            None => pins_failure(
                target,
                ops_lowered(target, state, plan, n - 1),
                plan[n - 1].block,
                plan[n - 1].op,
                plan[n - 1].pins,
                plan[n - 1].pins.len() as int,
            ),
        }
    }
}

proof fn lower_failure_stays<T: TargetRegAlloc>(
    target: T,
    state: LowerState,
    plan: Seq<PinnedView>,
    n: int,
    m: int,
)
    requires
        0 < n <= m,
        lower_failure(target, state, plan, n) is Some,
    ensures
        lower_failure(target, state, plan, m) == lower_failure(target, state, plan, n),
    decreases m - n,
{
    if n < m {
        lower_failure_stays(target, state, plan, n, m - 1);
    }
}

/// How many slots the first `n` of `plan` pin.
pub open spec fn pin_count(plan: Seq<PinnedView>, n: int) -> nat
    decreases n,
{
    if n <= 0 {
        0
    } else {
        pin_count(plan, n - 1) + plan[n - 1].pins.len()
    }
}

proof fn pin_count_grows(plan: Seq<PinnedView>, n: int, m: int)
    requires
        n <= m,
    ensures
        pin_count(plan, n) <= pin_count(plan, m),
    decreases m - n,
{
    if n < m {
        pin_count_grows(plan, n, m - 1);
    }
}

/// Lowering mints one value and one operation for each pinned slot, and takes no
/// operation away.
pub proof fn lowering_mints_by_op<T: TargetRegAlloc>(
    target: T,
    state: LowerState,
    plan: Seq<PinnedView>,
    n: int,
    other: OpId,
)
    ensures
        grown_by(
            state.context,
            ops_lowered(target, state, plan, n).context,
            pin_count(plan, n) as int,
            pin_count(plan, n) as int,
        ),
        state.context.ir.op(other) is Some ==> ops_lowered(target, state, plan, n).context.ir.op(
            other,
        ) is Some,
    decreases n,
{
    if n > 0 {
        lowering_mints_by_op(target, state, plan, n - 1, other);
        reveal(op_lowered);
        let here = ops_lowered(target, state, plan, n - 1);
        let pinned = plan[n - 1];
        lowering_mints_by_slot(
            target,
            here,
            pinned.block,
            pinned.op,
            pinned.pins,
            pinned.pins.len() as int,
            other,
        );
    }
}

/// The pins of a symbol's arguments over what is pinned already, of the first
/// `n` of `pins`.
pub open spec fn with_argument_pins(
    precolor: Seq<(u32, RegView)>,
    pins: Seq<(ValueId, RegView)>,
    n: int,
) -> Seq<(u32, RegView)>
    decreases n,
{
    if n <= 0 {
        precolor
    } else {
        with_entry(with_argument_pins(precolor, pins, n - 1), pins[n - 1].0.0, pins[n - 1].1)
    }
}

fn pin_entry(precolor: &mut Vec<(u32, PhysReg)>, key: u32, register: PhysReg)
    ensures
        precolor_views(final(precolor)@) == with_entry(
            precolor_views(old(precolor)@),
            key,
            reg_view(register),
        ),
{
    let ghost views = precolor_views(precolor@);
    proof {
        same_key_position(precolor@, key);
    }
    set_entry(precolor, key, register);
    assert(precolor_views(precolor@) =~= with_entry(views, key, reg_view(register))) by {
        key_position_is_first(old(precolor)@, key);
    }
}

proof fn same_key_position(list: Seq<(u32, PhysReg)>, key: u32)
    ensures
        key_position(precolor_views(list), key) == key_position(list, key),
    decreases list.len(),
{
    if list.len() > 0 {
        assert(precolor_views(list).skip(1) =~= precolor_views(list.skip(1)));
        same_key_position(list.skip(1), key);
    }
}

/// Turns each instruction's pre-coloring constraints into point constraints:
/// the value a pinned slot holds is copied to or from a fresh one right there,
/// and the fresh one is what is pinned. The calling convention's argument pins
/// name values the entry copies already made local, so they pin only the
/// boundary itself.
pub fn lower_fixed_registers<T: TargetRegAlloc>(
    target: &T,
    context: &mut Context,
    machine: &Machine,
    symbol: OpId,
    blocks: &Vec<BlockId>,
) -> (r: Result<Vec<(u32, PhysReg)>, PassError>)
    requires
        old(context).inv(),
        old(context)@.sound(),
        old(context)@.blocks_live(blocks@),
        ({
            let plan = pinned_of(old(context)@, *machine, blocks@, blocks@.len() as int);
            old(context)@.has_room(pin_count(plan, plan.len() as int) as int)
        }),
    ensures
        final(context).inv(),
        keeps(old(context)@, final(context)@),
        ({
            let plan = pinned_of(old(context)@, *machine, blocks@, blocks@.len() as int);
            let n = plan.len() as int;
            let state = LowerState { context: old(context)@, precolor: Seq::empty() };
            let after = ops_lowered(*target, state, plan, n);
            let pins = spelled_assignment(after.context.attr(symbol, "arg_pins"@));
            match lower_failure(*target, state, plan, n) {
                Some(e) => fails(r, e),
                None => r is Ok && final(context)@ == after.context && precolor_views(
                    r->Ok_0@,
                ) == with_argument_pins(after.precolor, pins, pins.len() as int),
            }
        }),
{
    let plan = pinned_ops(context, machine, blocks);
    let ghost views = pinned_views(plan@);
    let ghost state = LowerState { context: context@, precolor: Seq::empty() };
    let mut precolor: Vec<(u32, PhysReg)> = Vec::new();
    assert(precolor_views(precolor@) =~= Seq::empty());
    let mut i: usize = 0;
    while i < plan.len()
        invariant
            i <= plan.len(),
            context.inv(),
            keeps(old(context)@, context@),
            views == pinned_views(plan@),
            views == pinned_of(old(context)@, *machine, blocks@, blocks@.len() as int),
            state == (LowerState { context: old(context)@, precolor: Seq::empty() }),
            state.context.has_room(pin_count(views, views.len() as int) as int),
            forall|k: int|
                0 <= k < plan@.len() ==> state.context.ir.op((#[trigger] plan@[k]).op) is Some,
            lower_failure(*target, state, views, i as int) is None,
            ops_lowered(*target, state, views, i as int) == (LowerState {
                context: context@,
                precolor: precolor_views(precolor@),
            }),
        decreases plan.len() - i,
    {
        assert(views[i as int] == plan@[i as int]@);
        let op = plan[i].op;
        proof {
            assert(state.context.ir.op(plan@[i as int].op) is Some);
            lowering_mints_by_op(*target, state, views, i as int, op);
            pin_count_grows(views, i + 1, views.len() as int);
        }
        let ghost here = ops_lowered(*target, state, views, i as int);
        match lower_pins(target, context, plan[i].block, op, &plan[i].pins, &mut precolor) {
            Ok(_) => {},
            Err(e) => {
                proof {
                    lower_failure_stays(*target, state, views, i + 1, views.len() as int);
                }
                return Err(e);
            },
        }
        proof {
            reveal(op_lowered);
            lowering_mints_by_slot(
                *target,
                here,
                plan@[i as int].block,
                op,
                views[i as int].pins,
                views[i as int].pins.len() as int,
                op,
            );
        }
        strip_attr(context, op, "pins");
        i += 1;
    }
    let ghost after = ops_lowered(*target, state, views, views.len() as int);
    let pins = RegAssignment::of_op(context, symbol, "arg_pins");
    let mut k: usize = 0;
    while k < pins.len()
        invariant
            k <= pins@.len(),
            precolor_views(precolor@) == with_argument_pins(after.precolor, pins@, k as int),
        decreases pins@.len() - k,
    {
        let (value, register) = pins.at(k);
        pin_entry(&mut precolor, value.0, register);
        k += 1;
    }
    Ok(precolor)
}

} // verus!

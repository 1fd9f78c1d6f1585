//! What machine IR must keep to be accepted, which instructions are listed, and
//! how often a register is counted.
use vstd::prelude::*;
use crate::attributes::AttrView;
use crate::backend::classes::ClassView;
use crate::backend::listing::in_block;
use crate::backend::listing::listed;
use crate::backend::listing::listed_upto;
use crate::backend::listing::occurrences;
use crate::backend::listing::references;
use crate::backend::listing::registers_in;
use crate::backend::registers::assigned_to;
use crate::backend::registers::ports_of;
use crate::backend::registers::positions_taken;
use crate::backend::registers::slot_at;
use crate::backend::registers::slot_named;
use crate::backend::registers::slots;
use crate::backend::registers::slots_of;
use crate::backend::registers::spelled_assignment;
use crate::backend::registers::Machine;
use crate::backend::registers::RegPort;
use crate::backend::registers::SlotKind;
use crate::backend::registers::SlotView;
use crate::backend::verify::gone_failure;
use crate::backend::verify::held_failure;
use crate::backend::verify::machine_failure;
use crate::backend::verify::missing_failure;
use crate::backend::verify::pin_failure;
use crate::backend::verify::placed_failure;
use crate::backend::verify::register_values_of;
use crate::backend::verify::slots_failure;
use crate::backend::verify::state_failure;
use crate::backend::verify::unfilled_failure;
use crate::backend::verify::values_in;
use crate::context::ContextView;
use crate::error::first_failure;
use crate::error::no_failure_anywhere;
use crate::ids::BlockId;
use crate::ids::OpId;
use crate::ids::ValueId;

verus! {

/// How many ports of one direction before a port have no attribute.
pub open spec fn unset_before(
    context: ContextView,
    op: OpId,
    ports: Seq<RegPort>,
    i: int,
    def: bool,
) -> nat {
    ports.take(i).filter(
        |port: RegPort| port.def == def && context.attr(op, port.name@) is None,
    ).len()
}

proof fn positions_are_unset_ports(
    context: ContextView,
    op: OpId,
    ports: Seq<RegPort>,
    i: int,
    def: bool,
)
    requires
        0 <= i <= ports.len(),
    ensures
        positions_taken(context, op, ports, i, def) == unset_before(context, op, ports, i, def),
    decreases i,
{
    reveal(Seq::filter);
    if i > 0 {
        positions_are_unset_ports(context, op, ports, i - 1, def);
        assert(ports.take(i).drop_last() =~= ports.take(i - 1));
        assert(ports.take(i).last() == ports[i - 1]);
    }
}

/// A port whose attribute names a physical register is that register, and one
/// with another attribute is nothing. Every other port is the next operand, or
/// the next result if it is written, of those the ports before it left.
pub proof fn ports_take_operands_in_order(
    context: ContextView,
    op: OpId,
    ports: Seq<RegPort>,
    i: int,
)
    requires
        0 <= i < ports.len(),
    ensures
        ({
            let port = ports[i];
            let list = if port.def {
                context.value_results(op)
            } else {
                context.value_operands(op)
            };
            let next = unset_before(context, op, ports, i, port.def) as int;
            match (context.attr(op, port.name@), slot_at(context, op, ports, i)) {
                (Some(AttrView::Physical(class, index)), Some(slot)) => slot.port == port
                    && slot.slot == SlotKind::Phys(class, index),
                (Some(AttrView::Physical(_, _)), None) => false,
                (Some(_), slot) => slot is None,
                (None, Some(slot)) => next < list.len() && slot.port == port && slot.slot
                    == SlotKind::Value(list[next]),
                (None, None) => next >= list.len(),
            }
        }),
{
    positions_are_unset_ports(context, op, ports, i, ports[i].def);
}

/// Every value an instruction names is live.
pub open spec fn names_live_values(context: ContextView, op: OpId) -> bool {
    let o = context.ir.op(op)->0;
    &&& forall|i: int|
        0 <= i < o.operands.len() ==> context.ir.value(#[trigger] o.operands[i]) is Some
    &&& forall|i: int|
        0 <= i < o.results.len() ==> context.ir.value(#[trigger] o.results[i]) is Some
}

/// Whether what a slot holds is a register in the file, and at the offset in it,
/// that its port looks at, where the port looks at one.
pub open spec fn fits_its_port(context: ContextView, slot: SlotView) -> bool {
    match (slot.slot, slot.port.class) {
        (SlotKind::Value(value), Some(class)) => {
            &&& context.register_class(value) is Some
            &&& context.register_class(value)->0.file == class@.file
            &&& context.register_class(value)->0.view.bit_offset == class@.view.bit_offset
        },
        _ => true,
    }
}

/// How many slots of one direction hold a value.
pub open spec fn values_held(held: Seq<SlotView>, def: bool) -> nat {
    held.filter(|slot: SlotView| slot.slot is Value && slot.port.def == def).len()
}

proof fn values_are_counted(held: Seq<SlotView>, n: int, def: bool)
    requires
        0 <= n <= held.len(),
    ensures
        values_in(held, n, def) == values_held(held.take(n), def),
    decreases n,
{
    reveal(Seq::filter);
    if n > 0 {
        values_are_counted(held, n - 1, def);
        assert(held.take(n).drop_last() =~= held.take(n - 1));
        assert(held.take(n).last() == held[n - 1]);
    }
}

/// The slots are what the ports that hold something hold, in the order of the
/// ports.
pub proof fn slots_come_in_the_order_of_the_ports(
    context: ContextView,
    op: OpId,
    ports: Seq<RegPort>,
    n: int,
)
    requires
        0 <= n <= ports.len(),
    ensures
        slots(context, op, ports, n) == Seq::new(
            n as nat,
            |i: int| slot_at(context, op, ports, i),
        ).filter(|slot: Option<SlotView>| slot is Some).map_values(
            |slot: Option<SlotView>| slot->0,
        ),
    decreases n,
{
    reveal(Seq::filter);
    let found = Seq::new(n as nat, |i: int| slot_at(context, op, ports, i));
    let some = |slot: Option<SlotView>| slot is Some;
    let held = |slot: Option<SlotView>| slot->0;
    if n > 0 {
        slots_come_in_the_order_of_the_ports(context, op, ports, n - 1);
        let before = Seq::new((n - 1) as nat, |i: int| slot_at(context, op, ports, i));
        assert(found.drop_last() =~= before);
        assert(found.last() == slot_at(context, op, ports, n - 1));
        if found.last() is Some {
            assert(found.filter(some) =~= before.filter(some).push(found.last()));
            assert(found.filter(some).map_values(held) =~= before.filter(some).map_values(
                held,
            ).push(found.last()->0));
        }
    } else {
        assert(found.filter(some).map_values(held) =~= Seq::empty());
    }
}

/// The register slots of an instruction are accepted exactly where every value
/// it names is live, every port holds something, the ports leave no operand and
/// no result over and lack none, and what each slot holds fits its port.
pub proof fn accepted_slots_hold_what_their_ports_want(
    context: ContextView,
    machine: Machine,
    op: OpId,
)
    ensures
        slots_failure(context, machine, op) is None <==> {
            let ports = ports_of(machine, context.identity(op));
            let held = slots_of(context, machine, op);
            &&& names_live_values(context, op)
            &&& forall|i: int|
                #![trigger ports[i]]
                0 <= i < ports.len() ==> context.attr(op, ports[i].name@) is Some
                    || slot_named(held, ports[i].name@) is Some
            &&& ports.len() == 0 || {
                &&& values_held(held, false) == context.filtered(
                    context.ir.op(op)->0.operands,
                    false,
                ).len()
                &&& values_held(held, true) == context.filtered(
                    context.ir.op(op)->0.results,
                    false,
                ).len()
            }
            &&& forall|i: int| 0 <= i < held.len() ==> fits_its_port(context, #[trigger] held[i])
        },
{
    let o = context.ir.op(op)->0;
    let ports = ports_of(machine, context.identity(op));
    let held = slots_of(context, machine, op);
    let read = |i: int| gone_failure(context, op, o.operands[i]);
    let written = |i: int| gone_failure(context, op, o.results[i]);
    let unfilled = |i: int| unfilled_failure(context, op, ports[i], held);
    let wrong = |i: int| held_failure(context, op, held[i]);
    no_failure_anywhere(read, o.operands.len() as int);
    no_failure_anywhere(written, o.results.len() as int);
    no_failure_anywhere(unfilled, ports.len() as int);
    no_failure_anywhere(wrong, held.len() as int);
    values_are_counted(held, held.len() as int, false);
    values_are_counted(held, held.len() as int, true);
    assert(held.take(held.len() as int) =~= held);
    assert forall|i: int|
        #![trigger read(i)]
        #![trigger o.operands[i]]
        0 <= i < o.operands.len() implies (read(i) is None <==> context.ir.value(
        o.operands[i],
    ) is Some) by {}
    assert forall|i: int|
        #![trigger written(i)]
        #![trigger o.results[i]]
        0 <= i < o.results.len() implies (written(i) is None <==> context.ir.value(
        o.results[i],
    ) is Some) by {}
    assert forall|i: int|
        #![trigger unfilled(i)]
        #![trigger ports[i]]
        0 <= i < ports.len() implies (unfilled(i) is None <==> context.attr(
        op,
        ports[i].name@,
    ) is Some || slot_named(held, ports[i].name@) is Some) by {}
    assert forall|i: int|
        #![trigger wrong(i)]
        #![trigger held[i]]
        0 <= i < held.len() implies (wrong(i) is None <==> fits_its_port(context, held[i])) by {}
}

/// Whether every memory state an instruction observes is defined by an operation
/// that is there, or is what a block is entered on.
pub open spec fn observes_defined_states(context: ContextView, op: OpId) -> bool {
    let o = context.ir.op(op)->0;
    forall|i: int|
        0 <= i < o.operands.len() && context.is_state(#[trigger] o.operands[i]) ==> match context.ir.value(
            o.operands[i],
        )->0.value.defining_op {
            Some(def) => context.ir.op(def) is Some,
            None => context.ir.value(o.operands[i])->0.block is Some,
        }
}

/// Whether every entry of an assignment places a register in the file, and at the
/// offset in it, that it is in.
pub open spec fn places_alike(
    context: ContextView,
    assignment: Seq<(ValueId, (ClassView, u16))>,
) -> bool {
    forall|i: int|
        #![trigger assignment[i]]
        0 <= i < assignment.len() && context.register_class(assignment[i].0) is Some ==> {
            let class = context.register_class(assignment[i].0)->0;
            let (given, _) = assignment[i].1;
            given.file == class.file && given.view.bit_offset == class.view.bit_offset
        }
}

proof fn no_placement_fails(
    context: ContextView,
    assignment: Seq<(ValueId, (ClassView, u16))>,
)
    ensures
        first_failure(
            |i: int| placed_failure(context, assignment[i]),
            assignment.len() as int,
        ) is None <==> places_alike(context, assignment),
{
    let wrong = |i: int| placed_failure(context, assignment[i]);
    no_failure_anywhere(wrong, assignment.len() as int);
    assert forall|i: int|
        #![trigger wrong(i)]
        #![trigger assignment[i]]
        0 <= i < assignment.len() implies (wrong(i) is None <==> (context.register_class(
        assignment[i].0,
    ) is Some ==> {
        let class = context.register_class(assignment[i].0)->0;
        let (given, _) = assignment[i].1;
        given.file == class.file && given.view.bit_offset == class.view.bit_offset
    })) by {}
}

/// An instruction that is accepted has slots that hold what their ports want,
/// observes only memory states that are defined, and pins its arguments and its
/// slots to registers in the file, and at the offset in it, that what they hold
/// is in. A symbol with an assignment gives every register of its body one, in
/// the file and at the offset it is in.
pub proof fn accepted_instructions_are_sound(
    context: ContextView,
    machine: Machine,
    op: OpId,
)
    ensures
        machine_failure(context, machine, op) is None <==> {
            &&& slots_failure(context, machine, op) is None
            &&& observes_defined_states(context, op)
            &&& places_alike(
                context,
                spelled_assignment(context.attr(op, "arg_pins"@)),
            )
            &&& context.attr(op, "pins"@) is Some ==> pins_alike(
                context,
                op,
                slots_of(context, machine, op),
            )
            &&& context.identity(op) == ("asm"@, "symbol"@) && context.attr(
                op,
                "assignment"@,
            ) is Some ==> {
                let given = spelled_assignment(
                    context.attr(op, "assignment"@),
                );
                let values = register_values_of(context, op);
                &&& places_alike(context, given)
                &&& forall|i: int|
                    0 <= i < values.len() ==> assigned_to(
                        given,
                        #[trigger] values[i],
                    ) is Some
            }
        },
{
    let o = context.ir.op(op)->0;
    let observed = |i: int| state_failure(context, op, o.operands[i]);
    no_failure_anywhere(observed, o.operands.len() as int);
    assert forall|i: int|
        #![trigger observed(i)]
        #![trigger o.operands[i]]
        0 <= i < o.operands.len() implies (observed(i) is None <==> (context.is_state(
        o.operands[i],
    ) ==> match context.ir.value(o.operands[i])->0.value.defining_op {
        Some(def) => context.ir.op(def) is Some,
        None => context.ir.value(o.operands[i])->0.block is Some,
    })) by {}
    no_placement_fails(
        context,
        spelled_assignment(context.attr(op, "arg_pins"@)),
    );
    let held = slots_of(context, machine, op);
    let pinned = |i: int| pin_failure(context, op, held[i]);
    no_failure_anywhere(pinned, held.len() as int);
    assert forall|i: int|
        #![trigger pinned(i)]
        #![trigger held[i]]
        0 <= i < held.len() implies (pinned(i) is None <==> pin_alike(context, op, held[i])) by {}
    if context.attr(op, "assignment"@) is Some {
        let given = spelled_assignment(context.attr(op, "assignment"@));
        let values = register_values_of(context, op);
        no_placement_fails(context, given);
        let missing = |i: int| missing_failure(context, op, given, values[i]);
        no_failure_anywhere(missing, values.len() as int);
        assert forall|i: int|
            #![trigger missing(i)]
            #![trigger values[i]]
            0 <= i < values.len() implies (missing(i) is None
            <==> assigned_to(given, values[i]) is Some) by {}
    }
}

/// Whether a slot that is pinned is pinned to a register in the file, and at the
/// offset in it, that what it holds is in.
pub open spec fn pin_alike(context: ContextView, op: OpId, slot: SlotView) -> bool {
    match (slot.slot, context.slot_pin(op, slot.port.name@)) {
        (SlotKind::Value(value), Some(pin)) => context.register_class(value) is Some ==> {
            let class = context.register_class(value)->0;
            pin.0.file == class.file && pin.0.view.bit_offset == class.view.bit_offset
        },
        _ => true,
    }
}

/// Whether every slot that is pinned is pinned alike.
pub open spec fn pins_alike(context: ContextView, op: OpId, held: Seq<SlotView>) -> bool {
    forall|i: int| 0 <= i < held.len() ==> pin_alike(context, op, #[trigger] held[i])
}

proof fn block_is_listed(context: ContextView, block: BlockId, ops: Seq<OpId>, n: int)
    requires
        0 <= n <= ops.len(),
    ensures
        in_block(context, block, ops, n).len() == ops.take(n).filter(
            |op: OpId| context.ir.op(op) is Some,
        ).len(),
        forall|k: int|
            0 <= k < in_block(context, block, ops, n).len() ==> #[trigger] in_block(
                context,
                block,
                ops,
                n,
            )[k] == (block, ops.take(n).filter(|op: OpId| context.ir.op(op) is Some)[k]),
    decreases n,
{
    reveal(Seq::filter);
    if n > 0 {
        block_is_listed(context, block, ops, n - 1);
        assert(ops.take(n).drop_last() =~= ops.take(n - 1));
        assert(ops.take(n).last() == ops[n - 1]);
    }
}

/// The instructions listed are those the blocks hold that are there, block after
/// block, each block's in its order: the list of one more block is the list so
/// far and then that block's.
pub proof fn listed_instructions_are_those_of_the_blocks(
    context: ContextView,
    blocks: Seq<BlockId>,
    last: BlockId,
)
    requires
        context.ir.block(last) is Some,
    ensures
        listed(context, Seq::empty()) == Seq::<(BlockId, OpId)>::empty(),
        ({
            let held = context.ir.block(last)->0.operations.filter(
                |op: OpId| context.ir.op(op) is Some,
            );
            listed(context, blocks.push(last)) == listed(context, blocks) + Seq::new(
                held.len(),
                |i: int| (last, held[i]),
            )
        }),
{
    let ops = context.ir.block(last)->0.operations;
    let all = blocks.push(last);
    let n = blocks.len() as int;
    block_is_listed(context, last, ops, ops.len() as int);
    assert(ops.take(ops.len() as int) =~= ops);
    same_list(context, blocks, all, n);
    let held = ops.filter(|op: OpId| context.ir.op(op) is Some);
    assert(in_block(context, last, ops, ops.len() as int) =~= Seq::new(
        held.len(),
        |i: int| (last, held[i]),
    ));
    assert(all[n] == last);
}

proof fn same_list(context: ContextView, a: Seq<BlockId>, b: Seq<BlockId>, n: int)
    requires
        0 <= n <= a.len(),
        n <= b.len(),
        forall|i: int| 0 <= i < n ==> a[i] == b[i],
    ensures
        listed_upto(context, a, n) == listed_upto(context, b, n),
    decreases n,
{
    if n > 0 {
        same_list(context, a, b, n - 1);
    }
}

proof fn occurrences_are_counted(values: Seq<ValueId>, vreg: u32, n: int)
    requires
        0 <= n <= values.len(),
    ensures
        occurrences(values, vreg, n) == values.take(n).filter(|v: ValueId| v.0 == vreg).len(),
    decreases n,
{
    reveal(Seq::filter);
    if n > 0 {
        occurrences_are_counted(values, vreg, n - 1);
        assert(values.take(n).drop_last() =~= values.take(n - 1));
        assert(values.take(n).last() == values[n - 1]);
    }
}

/// One more instruction adds to the count of a register as often as it writes and
/// reads it.
pub proof fn references_count_reads_and_writes(
    context: ContextView,
    list: Seq<(BlockId, OpId)>,
    vreg: u32,
    n: int,
)
    requires
        0 <= n < list.len(),
    ensures
        references(context, list, vreg, 0) == 0,
        references(context, list, vreg, n + 1) == references(context, list, vreg, n) + (
        context.registers_written(list[n].1) + context.registers_read(list[n].1)).filter(
            |v: ValueId| v.0 == vreg,
        ).len(),
{
    let both = context.registers_written(list[n].1) + context.registers_read(list[n].1);
    occurrences_are_counted(both, vreg, both.len() as int);
    assert(both.take(both.len() as int) =~= both);
}

/// The registers among some values are those whose type is a register class, in
/// their order.
pub proof fn registers_are_those_of_a_class(context: ContextView, values: Seq<ValueId>, n: int)
    requires
        0 <= n <= values.len(),
    ensures
        registers_in(context, values, n) == values.take(n).filter(
            |v: ValueId| context.register_class(v) is Some,
        ),
    decreases n,
{
    reveal(Seq::filter);
    if n > 0 {
        registers_are_those_of_a_class(context, values, n - 1);
        assert(values.take(n).drop_last() =~= values.take(n - 1));
        assert(values.take(n).last() == values[n - 1]);
    }
}

} // verus!

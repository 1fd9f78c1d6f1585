//! Verification of machine IR.
//!
//! Machine IR is not SSA: block-parameter destruction leaves a parameter
//! defined once per predecessor, so the generic op-tree verifier does not
//! describe it. What it does have is one register notation, and these are its
//! rules:
//!
//! - an instruction names only values that still exist;
//! - every register slot of an instruction holds a value or a register, never
//!   neither: slots are read off in port order;
//! - a register slot holding a value must hold one whose class views the same
//!   register file at the same bit offset: a narrower class of that view is an
//!   allocation constraint, a different view is a type error;
//! - a register assignment must place a value in a register of a class sharing
//!   its own view;
//! - once a function carries an assignment, it is total: every register-typed
//!   value some instruction names has an entry.
use vstd::prelude::*;
use crate::attributes::AttrView;
use crate::attributes::AttributeValue;
use crate::backend::classes::ClassView;
use crate::backend::classes::RegClassId;
use crate::backend::registers::assigned_to;
use crate::backend::registers::ports_of;
use crate::backend::registers::reg_slots;
use crate::backend::registers::slot_named;
use crate::backend::registers::slot_pin;
use crate::backend::registers::slot_views;
use crate::backend::registers::slots_of;
use crate::backend::registers::spelled_assignment;
use crate::backend::registers::value_class;
use crate::backend::registers::Machine;
use crate::backend::registers::RegAssignment;
use crate::backend::registers::RegPort;
use crate::backend::registers::RegSlot;
use crate::backend::registers::SlotKind;
use crate::backend::registers::SlotRef;
use crate::backend::registers::SlotView;
use crate::context::Context;
use crate::context::ContextView;
use crate::error::either;
use crate::error::first_failure;
use crate::error::first_failure_stays;
use crate::error::invalid;
use crate::error::verdict;
use crate::error::Error;
use crate::error::ErrorView;
use crate::forks::conflict_message;
use crate::forks::verify_state_forks;
use crate::ids::OpId;
use crate::ids::ValueId;
use crate::seqs::holds_value;
use crate::text::cat2;
use crate::text::cat3;
use crate::text::cat4;
use crate::text::cat5;
use crate::text::cat6;
use crate::text::cat7;
use crate::text::decimal;
use crate::text::decimal_string;
use crate::text::same;
use crate::tree::is_tree;
use crate::tree::walk;
use crate::tree::walk_back;

verus! {

/// Whether two classes view the same register file at the same bit offset. A
/// register group read through a single-register slot is the same file at the
/// same offset, and is the allocation unit rather than a different view, so
/// group width does not enter.
pub open spec fn views_alike(a: ClassView, b: ClassView) -> bool {
    a.file == b.file && a.view.bit_offset == b.view.bit_offset
}

fn same_view(a: RegClassId, b: RegClassId) -> (r: bool)
    ensures
        r == views_alike(a@, b@),
{
    same(a.file(), b.file()) && a.0.view.bit_offset == b.0.view.bit_offset
}

/// A value as a message names it.
pub open spec fn percent(value: ValueId) -> Seq<char> {
    "%"@ + decimal(value.0 as nat)
}

fn percent_text(value: ValueId) -> (s: String)
    ensures
        s@ == percent(value),
{
    cat2("%", decimal_string(value.0 as u64).as_str())
}

/// Why naming `value` is wrong: it no longer exists.
pub open spec fn gone_failure(context: ContextView, op: OpId, value: ValueId) -> Option<Seq<char>> {
    if context.ir.value(value) is Some {
        None
    } else {
        Some(context.identity(op).1 + " names "@ + percent(value) + ", which no longer exists"@)
    }
}

fn verify_names(context: &Context, op: OpId, values: &Vec<ValueId>) -> (r: Result<(), Error>)
    requires
        context.inv(),
        context@.readable(op),
    ensures
        verdict(
            r,
            first_failure(|i: int| gone_failure(context@, op, values@[i]), values@.len() as int),
        ),
{
    let ghost at = |i: int| gone_failure(context@, op, values@[i]);
    let mut i: usize = 0;
    while i < values.len()
        invariant
            context.inv(),
            context@.readable(op),
            i <= values.len(),
            at == (|i: int| gone_failure(context@, op, values@[i])),
            first_failure(at, i as int) is None,
        decreases values.len() - i,
    {
        assert(at(i as int) == gone_failure(context@, op, values@[i as int]));
        if !context.has_value(values[i]) {
            proof {
                first_failure_stays(at, i + 1, values@.len() as int);
            }
            let (_dialect, name) = context.op_identity(op);
            let message = cat4(
                name,
                " names ",
                percent_text(values[i]).as_str(),
                ", which no longer exists",
            );
            return Err(invalid(message.as_str()));
        }
        i += 1;
    }
    Ok(())
}

/// Why a port is wrong: it holds neither a value nor a register.
pub open spec fn unfilled_failure(
    context: ContextView,
    op: OpId,
    port: RegPort,
    slots: Seq<SlotView>,
) -> Option<Seq<char>> {
    if context.attr(op, port.name@) is Some || slot_named(slots, port.name@) is Some {
        None
    } else {
        Some(
            context.identity(op).1 + " register slot '"@ + port.name@
                + "' holds neither a value nor a register"@,
        )
    }
}

/// How many of the first `n` slots of one direction hold a value.
pub open spec fn values_in(slots: Seq<SlotView>, n: int, def: bool) -> nat
    decreases n,
{
    if n <= 0 {
        0
    } else {
        values_in(slots, n - 1, def) + if slots[n - 1].slot is Value && slots[n - 1].port.def
            == def {
            1nat
        } else {
            0
        }
    }
}

/// Why the counts of an instruction with register ports are wrong: every SSA
/// position is some port's, since a surplus operand or result would be read by
/// nothing and a missing one shifts every later port. Memory states are order,
/// not registers, and are not counted.
pub open spec fn count_failure(
    context: ContextView,
    op: OpId,
    ports: Seq<RegPort>,
    slots: Seq<SlotView>,
) -> Option<Seq<char>> {
    let operands = context.filtered(context.ir.op(op)->0.operands, false).len();
    let results = context.filtered(context.ir.op(op)->0.results, false).len();
    let read = values_in(slots, slots.len() as int, false);
    let written = values_in(slots, slots.len() as int, true);
    if ports.len() == 0 || (read == operands && written == results) {
        None
    } else {
        Some(
            context.identity(op).1 + " has "@ + decimal(operands) + " operands and "@ + decimal(
                results,
            ) + " results for "@ + decimal(read) + (" use and "@ + decimal(written)
                + " def register slots"@),
        )
    }
}

/// Why what a slot holds is wrong: a port that narrows the class holds a
/// register of a class viewed as the port views it.
pub open spec fn held_failure(context: ContextView, op: OpId, slot: SlotView) -> Option<Seq<char>> {
    match (slot.slot, slot.port.class) {
        (SlotKind::Value(value), Some(port_class)) => {
            let subject = context.identity(op).1 + " operand '"@ + slot.port.name@ + "' reads "@
                + percent(value);
            match context.register_class(value) {
                None => Some(subject + ", which is not a register"@),
                Some(class) => if views_alike(class, port_class@) {
                    None
                } else {
                    Some(
                        subject + " of class "@ + class.name + " through "@ + port_class@.name
                            + ", a different register view"@,
                    )
                },
            }
        },
        _ => None,
    }
}

/// Why the register slots of `op` are wrong.
pub open spec fn slots_failure(context: ContextView, machine: Machine, op: OpId) -> Option<
    Seq<char>,
> {
    let o = context.ir.op(op)->0;
    let ports = ports_of(machine, context.identity(op));
    let slots = slots_of(context, machine, op);
    either(
        either(
            first_failure(|i: int| gone_failure(context, op, o.operands[i]), o.operands.len() as int),
            first_failure(|i: int| gone_failure(context, op, o.results[i]), o.results.len() as int),
        ),
        either(
            either(
                first_failure(
                    |i: int| unfilled_failure(context, op, ports[i], slots),
                    ports.len() as int,
                ),
                count_failure(context, op, ports, slots),
            ),
            first_failure(|i: int| held_failure(context, op, slots[i]), slots.len() as int),
        ),
    )
}

fn holds_port(slots: &Vec<SlotRef>, name: &str) -> (r: bool)
    ensures
        r == (slot_named(slot_views(slots@), name@) is Some),
{
    let ghost all = slot_views(slots@);
    assert(all.skip(0) =~= all);
    let mut i: usize = 0;
    while i < slots.len()
        invariant
            i <= slots.len(),
            all == slot_views(slots@),
            slot_named(all, name@) == slot_named(all.skip(i as int), name@),
        decreases slots.len() - i,
    {
        assert(all.skip(i as int)[0] == slots@[i as int]@);
        assert(all.skip(i as int).skip(1) =~= all.skip(i + 1));
        if same(slots[i].port.name, name) {
            return true;
        }
        i += 1;
    }
    assert(all.skip(i as int).len() == 0);
    false
}

fn verify_filled(
    context: &Context,
    op: OpId,
    ports: &Vec<RegPort>,
    slots: &Vec<SlotRef>,
) -> (r: Result<(), Error>)
    requires
        context.inv(),
        context@.readable(op),
    ensures
        verdict(
            r,
            first_failure(
                |i: int| unfilled_failure(context@, op, ports@[i], slot_views(slots@)),
                ports@.len() as int,
            ),
        ),
{
    let ghost at = |i: int| unfilled_failure(context@, op, ports@[i], slot_views(slots@));
    let mut i: usize = 0;
    while i < ports.len()
        invariant
            context.inv(),
            context@.readable(op),
            i <= ports.len(),
            at == (|i: int| unfilled_failure(context@, op, ports@[i], slot_views(slots@))),
            first_failure(at, i as int) is None,
        decreases ports.len() - i,
    {
        let name = ports[i].name;
        assert(at(i as int) == unfilled_failure(
            context@,
            op,
            ports@[i as int],
            slot_views(slots@),
        ));
        if context.with_attr(op, name).is_none() && !holds_port(slots, name) {
            proof {
                first_failure_stays(at, i + 1, ports@.len() as int);
            }
            let (_dialect, op_name) = context.op_identity(op);
            let message = cat4(
                op_name,
                " register slot '",
                name,
                "' holds neither a value nor a register",
            );
            return Err(invalid(message.as_str()));
        }
        i += 1;
    }
    Ok(())
}

fn count_values(slots: &Vec<SlotRef>, def: bool) -> (n: usize)
    ensures
        n == values_in(slot_views(slots@), slots@.len() as int, def),
{
    let mut n: usize = 0;
    let mut i: usize = 0;
    while i < slots.len()
        invariant
            i <= slots.len(),
            n <= i,
            n == values_in(slot_views(slots@), i as int, def),
        decreases slots.len() - i,
    {
        assert(slot_views(slots@)[i as int] == slots@[i as int]@);
        if let RegSlot::Value(_value) = slots[i].slot {
            if slots[i].port.def == def {
                n += 1;
            }
        }
        i += 1;
    }
    n
}

fn verify_counts(
    context: &Context,
    op: OpId,
    ports: &Vec<RegPort>,
    slots: &Vec<SlotRef>,
) -> (r: Result<(), Error>)
    requires
        context.inv(),
        context@.readable(op),
    ensures
        verdict(r, count_failure(context@, op, ports@, slot_views(slots@))),
{
    let operands: usize = context.values_among(context.operands_of(op).as_slice()).len();
    let results: usize = context.values_among(context.results_of(op).as_slice()).len();
    let read: usize = count_values(slots, false);
    let written: usize = count_values(slots, true);
    if ports.len() > 0 && (read != operands || written != results) {
        let (_dialect, name) = context.op_identity(op);
        let tail = cat3(
            " use and ",
            decimal_string(written as u64).as_str(),
            " def register slots",
        );
        let head = cat7(
            name,
            " has ",
            decimal_string(operands as u64).as_str(),
            " operands and ",
            decimal_string(results as u64).as_str(),
            " results for ",
            decimal_string(read as u64).as_str(),
        );
        return Err(invalid(cat2(head.as_str(), tail.as_str()).as_str()));
    }
    Ok(())
}

fn verify_held(context: &Context, op: OpId, slots: &Vec<SlotRef>) -> (r: Result<(), Error>)
    requires
        context.inv(),
        context@.sound(),
        context@.readable(op),
    ensures
        verdict(
            r,
            first_failure(
                |i: int| held_failure(context@, op, slot_views(slots@)[i]),
                slots@.len() as int,
            ),
        ),
{
    let ghost all = slot_views(slots@);
    let ghost at = |i: int| held_failure(context@, op, all[i]);
    let mut i: usize = 0;
    while i < slots.len()
        invariant
            context.inv(),
            context@.sound(),
            context@.readable(op),
            i <= slots.len(),
            all == slot_views(slots@),
            at == (|i: int| held_failure(context@, op, all[i])),
            first_failure(at, i as int) is None,
        decreases slots.len() - i,
    {
        assert(all[i as int] == slots@[i as int]@);
        assert(at(i as int) == held_failure(context@, op, all[i as int]));
        if let (RegSlot::Value(value), Some(port_class)) = (slots[i].slot, slots[i].port.class) {
            assert(context@.value_sound(value));
            let (_dialect, name) = context.op_identity(op);
            let subject = cat5(
                name,
                " operand '",
                slots[i].port.name,
                "' reads ",
                percent_text(value).as_str(),
            );
            match value_class(context, value) {
                None => {
                    proof {
                        first_failure_stays(at, i + 1, slots@.len() as int);
                    }
                    return Err(
                        invalid(cat2(subject.as_str(), ", which is not a register").as_str()),
                    );
                },
                Some(class) => {
                    if !same_view(class, port_class) {
                        proof {
                            first_failure_stays(at, i + 1, slots@.len() as int);
                        }
                        let message = cat6(
                            subject.as_str(),
                            " of class ",
                            class.name(),
                            " through ",
                            port_class.name(),
                            ", a different register view",
                        );
                        return Err(invalid(message.as_str()));
                    }
                },
            }
        }
        i += 1;
    }
    Ok(())
}

/// Checks the register slots of `op`: it names only values that exist, every
/// port holds something, every position is some port's, and what a port narrows
/// it views as the value's own class does.
pub fn verify_reg_slots(context: &Context, machine: &Machine, op: OpId) -> (r: Result<(), Error>)
    requires
        context.inv(),
        context@.sound(),
        context@.readable(op),
    ensures
        verdict(r, slots_failure(context@, *machine, op)),
{
    match verify_names(context, op, context.operands_of(op)) {
        Ok(_) => {},
        Err(e) => {
            return Err(e);
        },
    }
    match verify_names(context, op, context.results_of(op)) {
        Ok(_) => {},
        Err(e) => {
            return Err(e);
        },
    }
    let slots = reg_slots(context, machine, op);
    let ports = machine.reg_ports(context, op);
    match verify_filled(context, op, &ports, &slots) {
        Ok(_) => {},
        Err(e) => {
            return Err(e);
        },
    }
    match verify_counts(context, op, &ports, &slots) {
        Ok(_) => {},
        Err(e) => {
            return Err(e);
        },
    }
    verify_held(context, op, &slots)
}

/// Whether something still here defines the state `value`: an operation, or a
/// block parameter standing for the chain the block is entered on.
pub open spec fn state_defined(context: ContextView, value: ValueId) -> bool {
    match context.ir.value(value)->0.value.defining_op {
        Some(def) => context.ir.op(def) is Some,
        None => context.ir.value(value)->0.block is Some,
    }
}

/// Why the operand `value` of `op` is wrong: a memory state nothing defines is
/// an edge to nothing.
pub open spec fn state_failure(context: ContextView, op: OpId, value: ValueId) -> Option<Seq<char>> {
    if context.is_state(value) && !state_defined(context, value) {
        Some(
            context.identity(op).1 + " observes "@ + percent(value)
                + ", a memory state nothing defines"@,
        )
    } else {
        None
    }
}

/// Checks that every memory state `op` observes is one something still names.
pub fn verify_state_operands(context: &Context, op: OpId) -> (r: Result<(), Error>)
    requires
        context.inv(),
        context@.readable(op),
    ensures
        verdict(
            r,
            first_failure(
                |i: int| state_failure(context@, op, context@.ir.op(op)->0.operands[i]),
                context@.ir.op(op)->0.operands.len() as int,
            ),
        ),
{
    let operands = context.operands_of(op);
    let ghost list = context@.ir.op(op)->0.operands;
    let ghost at = |i: int| state_failure(context@, op, list[i]);
    let mut i: usize = 0;
    while i < operands.len()
        invariant
            context.inv(),
            context@.readable(op),
            i <= operands.len(),
            operands@ == list,
            list == context@.ir.op(op)->0.operands,
            at == (|i: int| state_failure(context@, op, list[i])),
            first_failure(at, i as int) is None,
        decreases operands.len() - i,
    {
        let value = operands[i];
        assert(at(i as int) == state_failure(context@, op, list[i as int]));
        if context.has_value(value) && context.get_value(value).is_state() {
            let defined = match context.get_value(value).defining_op {
                Some(def) => context.has_operation(def),
                None => context.is_block_argument(value),
            };
            if !defined {
                proof {
                    first_failure_stays(at, i + 1, list.len() as int);
                }
                let (_dialect, name) = context.op_identity(op);
                let message = cat4(
                    name,
                    " observes ",
                    percent_text(value).as_str(),
                    ", a memory state nothing defines",
                );
                return Err(invalid(message.as_str()));
            }
        }
        i += 1;
    }
    Ok(())
}

/// Why the entry that places `value` in a register is wrong: the register is of
/// a class of another view.
pub open spec fn placed_failure(
    context: ContextView,
    entry: (ValueId, (ClassView, u16)),
) -> Option<Seq<char>> {
    match context.register_class(entry.0) {
        Some(class) => if views_alike(entry.1.0, class) {
            None
        } else {
            Some(
                percent(entry.0) + " of class "@ + class.name + " is pinned to "@ + entry.1.0.name
                    + "["@ + decimal(entry.1.1 as nat) + "], a different register view"@,
            )
        },
        None => None,
    }
}

/// Checks that a value is only pinned to, or assigned, a register of a class
/// sharing its own architectural view.
pub fn verify_views(context: &Context, assignment: &RegAssignment) -> (r: Result<(), Error>)
    requires
        context.inv(),
        context@.sound(),
    ensures
        verdict(
            r,
            first_failure(
                |i: int| placed_failure(context@, assignment@[i]),
                assignment@.len() as int,
            ),
        ),
{
    let ghost at = |i: int| placed_failure(context@, assignment@[i]);
    let mut i: usize = 0;
    while i < assignment.len()
        invariant
            context.inv(),
            context@.sound(),
            i <= assignment@.len(),
            at == (|i: int| placed_failure(context@, assignment@[i])),
            first_failure(at, i as int) is None,
        decreases assignment@.len() - i,
    {
        let (value, (class, index)) = assignment.at(i);
        assert(at(i as int) == placed_failure(context@, assignment@[i as int]));
        assert(context@.value_sound(value));
        if let Some(own) = value_class(context, value) {
            if !same_view(class, own) {
                proof {
                    first_failure_stays(at, i + 1, assignment@.len() as int);
                }
                let head = cat5(
                    percent_text(value).as_str(),
                    " of class ",
                    own.name(),
                    " is pinned to ",
                    class.name(),
                );
                let message = cat4(
                    head.as_str(),
                    "[",
                    decimal_string(index as u64).as_str(),
                    "], a different register view",
                );
                return Err(invalid(message.as_str()));
            }
        }
        i += 1;
    }
    Ok(())
}

/// Why the pin of a slot is wrong: the register is of a class of another view
/// than the value the slot holds.
pub open spec fn pin_failure(context: ContextView, op: OpId, slot: SlotView) -> Option<Seq<char>> {
    match (slot.slot, context.slot_pin(op, slot.port.name@)) {
        (SlotKind::Value(value), Some(pin)) => match context.register_class(value) {
            Some(class) => if views_alike(pin.0, class) {
                None
            } else {
                Some(
                    context.identity(op).1 + " slot '"@ + slot.port.name@ + "' holds "@ + percent(
                        value,
                    ) + " of class "@ + class.name + (" but is pinned to "@ + pin.0.name + "["@
                        + decimal(pin.1 as nat) + "]"@),
                )
            },
            None => None,
        },
        _ => None,
    }
}

/// Why the pins of `op` are wrong.
pub open spec fn pins_failure(context: ContextView, machine: Machine, op: OpId) -> Option<
    Seq<char>,
> {
    if context.attr(op, "pins"@) is None {
        None
    } else {
        let slots = slots_of(context, machine, op);
        first_failure(|i: int| pin_failure(context, op, slots[i]), slots.len() as int)
    }
}

/// Checks that a slot is only pinned to a register of a class sharing the view
/// of the value it holds.
pub fn verify_slot_pins(context: &Context, machine: &Machine, op: OpId) -> (r: Result<(), Error>)
    requires
        context.inv(),
        context@.sound(),
        context@.readable(op),
    ensures
        verdict(r, pins_failure(context@, *machine, op)),
{
    if context.with_attr(op, "pins").is_none() {
        return Ok(());
    }
    let slots = reg_slots(context, machine, op);
    let ghost all = slots_of(context@, *machine, op);
    let ghost at = |i: int| pin_failure(context@, op, all[i]);
    let mut i: usize = 0;
    while i < slots.len()
        invariant
            context.inv(),
            context@.sound(),
            context@.readable(op),
            i <= slots.len(),
            all == slot_views(slots@),
            at == (|i: int| pin_failure(context@, op, all[i])),
            all == slots_of(context@, *machine, op),
            context@.attr(op, "pins"@) is Some,
            first_failure(at, i as int) is None,
        decreases slots.len() - i,
    {
        assert(all[i as int] == slots@[i as int]@);
        assert(at(i as int) == pin_failure(context@, op, all[i as int]));
        let pin = slot_pin(context, op, slots[i].port.name);
        if let (RegSlot::Value(value), Some(register)) = (slots[i].slot, pin) {
            assert(context@.value_sound(value));
            if let Some(own) = value_class(context, value) {
                if !same_view(register.0, own) {
                    proof {
                        first_failure_stays(at, i + 1, slots@.len() as int);
                    }
                    let (_dialect, name) = context.op_identity(op);
                    let tail = cat5(
                        " but is pinned to ",
                        register.0.name(),
                        "[",
                        decimal_string(register.1 as u64).as_str(),
                        "]",
                    );
                    let head = cat7(
                        name,
                        " slot '",
                        slots[i].port.name,
                        "' holds ",
                        percent_text(value).as_str(),
                        " of class ",
                        own.name(),
                    );
                    return Err(invalid(cat2(head.as_str(), tail.as_str()).as_str()));
                }
            }
        }
        i += 1;
    }
    Ok(())
}

/// Of the first `n` of `values`, the live registers, each where it comes first.
pub open spec fn registers_among(context: ContextView, values: Seq<ValueId>, n: int) -> Seq<ValueId>
    decreases n,
{
    if n <= 0 {
        Seq::empty()
    } else {
        let before = registers_among(context, values, n - 1);
        let value = values[n - 1];
        if context.register_class(value) is Some && !before.contains(value) {
            before.push(value)
        } else {
            before
        }
    }
}

/// The values the first `n` of `ops` name: of each its operands, then its
/// results.
pub open spec fn named_values(context: ContextView, ops: Seq<OpId>, n: int) -> Seq<ValueId>
    decreases n,
{
    if n <= 0 {
        Seq::empty()
    } else {
        named_values(context, ops, n - 1) + context.ir.op(ops[n - 1])->0.operands + context.ir.op(
            ops[n - 1],
        )->0.results
    }
}

/// Every register-typed value the instructions `symbol` holds name, each once.
/// A block parameter no instruction names needs no register.
pub open spec fn register_values_of(context: ContextView, symbol: OpId) -> Seq<ValueId> {
    let ops = context.children(symbol);
    let values = named_values(context, ops, ops.len() as int);
    registers_among(context, values, values.len() as int)
}

/// Every register-typed value the symbol's instructions name, each once.
pub fn register_values(context: &Context, symbol: OpId) -> (r: Vec<ValueId>)
    requires
        context.inv(),
        context@.sound(),
        context@.ir.op(symbol) is Some,
    ensures
        r@ == register_values_of(context@, symbol),
{
    let ops = context.children(symbol);
    proof {
        crate::tree::children_are_live(context@, symbol);
    }
    let mut values: Vec<ValueId> = Vec::new();
    let mut i: usize = 0;
    while i < ops.len()
        invariant
            context.inv(),
            context@.all_live(ops@),
            i <= ops.len(),
            values@ =~= named_values(context@, ops@, i as int),
        decreases ops.len() - i,
    {
        assert(context@.ir.op(ops@[i as int]) is Some);
        let mut operands = crate::ir::copy_list(context.operands_of(ops[i]));
        let mut results = crate::ir::copy_list(context.results_of(ops[i]));
        values.append(&mut operands);
        values.append(&mut results);
        i += 1;
    }
    let mut r: Vec<ValueId> = Vec::new();
    let mut k: usize = 0;
    while k < values.len()
        invariant
            context.inv(),
            context@.sound(),
            k <= values.len(),
            r@ =~= registers_among(context@, values@, k as int),
        decreases values.len() - k,
    {
        let value = values[k];
        assert(context@.value_sound(value));
        if value_class(context, value).is_some() && !holds_value(&r, value) {
            r.push(value);
        }
        k += 1;
    }
    r
}

impl ContextView {
    /// The name a symbol carries, or nothing.
    pub open spec fn symbol_name(self, symbol: OpId) -> Seq<char> {
        match self.attr(symbol, "name"@) {
            Some(AttrView::Str(name)) => name,
            _ => Seq::empty(),
        }
    }
}

/// Why the assignment of `symbol` is wrong: once it carries one, it is total.
pub open spec fn assignment_failure(context: ContextView, symbol: OpId) -> Option<Seq<char>> {
    match context.attr(symbol, "assignment"@) {
        None => None,
        Some(_) => {
            let assignment = spelled_assignment(context.attr(symbol, "assignment"@));
            let values = register_values_of(context, symbol);
            either(
                first_failure(
                    |i: int| placed_failure(context, assignment[i]),
                    assignment.len() as int,
                ),
                first_failure(
                    |i: int| missing_failure(context, symbol, assignment, values[i]),
                    values.len() as int,
                ),
            )
        },
    }
}

/// Why a value is wrong under an assignment: it has no register there.
pub open spec fn missing_failure(
    context: ContextView,
    symbol: OpId,
    assignment: Seq<(ValueId, (ClassView, u16))>,
    value: ValueId,
) -> Option<Seq<char>> {
    if assigned_to(assignment, value) is Some {
        None
    } else {
        Some(
            percent(value) + " has no register in the assignment of '"@ + context.symbol_name(
                symbol,
            ) + "'"@,
        )
    }
}

fn symbol_text(context: &Context, symbol: OpId) -> (s: String)
    requires
        context.inv(),
    ensures
        s@ == context@.symbol_name(symbol),
{
    match context.op_attr(symbol, "name") {
        Some(AttributeValue::Str(name)) => name,
        _ => {
            let none = String::new();
            assert(none@ =~= Seq::empty());
            none
        },
    }
}

/// Checks the assignment a symbol carries, if it carries one.
pub fn verify_assignment(context: &Context, symbol: OpId) -> (r: Result<(), Error>)
    requires
        context.inv(),
        context@.sound(),
        context@.ir.op(symbol) is Some,
    ensures
        verdict(r, assignment_failure(context@, symbol)),
{
    if context.with_attr(symbol, "assignment").is_none() {
        return Ok(());
    }
    let assignment = RegAssignment::of_op(context, symbol, "assignment");
    match verify_views(context, &assignment) {
        Ok(_) => {},
        Err(e) => {
            return Err(e);
        },
    }
    let values = register_values(context, symbol);
    let ghost at = |i: int| missing_failure(context@, symbol, assignment@, values@[i]);
    let mut i: usize = 0;
    while i < values.len()
        invariant
            context.inv(),
            i <= values.len(),
            values@ == register_values_of(context@, symbol),
            assignment@ == spelled_assignment(context@.attr(symbol, "assignment"@)),
            context@.attr(symbol, "assignment"@) is Some,
            at == (|i: int| missing_failure(context@, symbol, assignment@, values@[i])),
            first_failure(
                |i: int| placed_failure(context@, assignment@[i]),
                assignment@.len() as int,
            ) is None,
            first_failure(at, i as int) is None,
        decreases values.len() - i,
    {
        assert(at(i as int) == missing_failure(context@, symbol, assignment@, values@[i as int]));
        if assignment.get(values[i]).is_none() {
            proof {
                first_failure_stays(at, i + 1, values@.len() as int);
            }
            let message = cat4(
                percent_text(values[i]).as_str(),
                " has no register in the assignment of '",
                symbol_text(context, symbol).as_str(),
                "'",
            );
            return Err(invalid(message.as_str()));
        }
        i += 1;
    }
    Ok(())
}

/// Why one operation of a machine tree is wrong.
pub open spec fn machine_failure(context: ContextView, machine: Machine, op: OpId) -> Option<
    Seq<char>,
> {
    let o = context.ir.op(op)->0;
    let pinned = spelled_assignment(context.attr(op, "arg_pins"@));
    either(
        either(
            slots_failure(context, machine, op),
            first_failure(
                |i: int| state_failure(context, op, o.operands[i]),
                o.operands.len() as int,
            ),
        ),
        either(
            either(
                first_failure(|i: int| placed_failure(context, pinned[i]), pinned.len() as int),
                pins_failure(context, machine, op),
            ),
            if context.is_op(op, "asm"@, "symbol"@) {
                assignment_failure(context, op)
            } else {
                None
            },
        ),
    )
}

fn verify_instruction(context: &Context, machine: &Machine, op: OpId) -> (r: Result<(), Error>)
    requires
        context.inv(),
        context@.sound(),
        context@.ir.op(op) is Some,
    ensures
        verdict(r, machine_failure(context@, *machine, op)),
{
    assert(context@.op_sound(op));
    match verify_reg_slots(context, machine, op) {
        Ok(_) => {},
        Err(e) => {
            return Err(e);
        },
    }
    match verify_state_operands(context, op) {
        Ok(_) => {},
        Err(e) => {
            return Err(e);
        },
    }
    match verify_views(context, &RegAssignment::of_op(context, op, "arg_pins")) {
        Ok(_) => {},
        Err(e) => {
            return Err(e);
        },
    }
    match verify_slot_pins(context, machine, op) {
        Ok(_) => {},
        Err(e) => {
            return Err(e);
        },
    }
    if context.get_op(op).is_name(context, "asm", "symbol") {
        return verify_assignment(context, op);
    }
    Ok(())
}

/// Why the machine IR under `root` is wrong: the first failure of a walk that
/// goes through what an operation holds from the last.
pub open spec fn machine_ir_failure(context: ContextView, machine: Machine, root: OpId) -> Option<
    Seq<char>,
> {
    let ops = walk(context.back_kids(), root);
    first_failure(|i: int| machine_failure(context, machine, ops[i]), ops.len() as int)
}

/// Verifies the machine IR under `root`.
///
/// Memory order is the same discipline it is in the mid-end: selection keeps
/// the chains rather than re-deriving them, so the rule that describes them is
/// the one that already did. Where more than one dependency breaks it, any one
/// of them is reported.
pub fn verify_machine_ir(context: &Context, machine: &Machine, root: OpId) -> (r: Result<
    (),
    Error,
>)
    requires
        context.inv(),
        context@.sound(),
        context@.ir.op(root) is Some,
        is_tree(context@.kids(), root),
        is_tree(context@.back_kids(), root),
    ensures
        (forall|value: ValueId|
            !#[trigger] context@.conflicted(walk(context@.kids(), root), value)) ==> verdict(
            r,
            machine_ir_failure(context@, *machine, root),
        ),
        !(forall|value: ValueId|
            !#[trigger] context@.conflicted(walk(context@.kids(), root), value)) ==> r is Err
            && exists|value: ValueId| #[trigger]
            context@.conflicted(walk(context@.kids(), root), value) && r->Err_0@
                == ErrorView::VerificationError(conflict_message(value)),
{
    match verify_state_forks(context, root) {
        Ok(_) => {},
        Err(e) => {
            return Err(e);
        },
    }
    let ops = walk_back(context, root);
    let ghost at = |i: int| machine_failure(context@, *machine, ops@[i]);
    let mut i: usize = 0;
    while i < ops.len()
        invariant
            context.inv(),
            context@.sound(),
            context@.all_live(ops@),
            ops@ == walk(context@.back_kids(), root),
            forall|value: ValueId|
                !#[trigger] context@.conflicted(walk(context@.kids(), root), value),
            i <= ops.len(),
            at == (|i: int| machine_failure(context@, *machine, ops@[i])),
            first_failure(at, i as int) is None,
        decreases ops.len() - i,
    {
        assert(context@.ir.op(ops@[i as int]) is Some);
        assert(at(i as int) == machine_failure(context@, *machine, ops@[i as int]));
        match verify_instruction(context, machine, ops[i]) {
            Ok(_) => {},
            Err(e) => {
                proof {
                    first_failure_stays(at, i + 1, ops@.len() as int);
                }
                return Err(e);
            },
        }
        i += 1;
    }
    Ok(())
}

} // verus!

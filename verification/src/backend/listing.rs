//! What the blocks of a function hold, in order, and what is read off it.
use vstd::prelude::*;
use crate::access::uint_attr;
use crate::backend::instructions::fails;
use crate::backend::instructions::PassError;
use crate::backend::instructions::PassErrorView;
use crate::backend::registers::found_class;
use crate::backend::registers::reg_slots;
use crate::backend::registers::slot_views;
use crate::backend::registers::slots_of;
use crate::backend::registers::value_class;
use crate::backend::registers::Machine;
use crate::backend::registers::RegSlot;
use crate::backend::registers::SlotKind;
use crate::backend::registers::SlotView;
use crate::backend::classes::ClassView;
use crate::backend::classes::RegClassId;
use crate::backend::tables::entry;
use crate::backend::tables::entry_is_read_back;
use crate::backend::tables::get_entry;
use crate::backend::tables::set_entry;
use crate::context::Context;
use crate::context::ContextView;
use crate::ids::BlockId;
use crate::ids::OpId;
use crate::ids::ValueId;
use crate::ir::copy_list;

verus! {

/// The live ones of the first `n` of `ops`, each with the block that holds it.
pub open spec fn in_block(context: ContextView, block: BlockId, ops: Seq<OpId>, n: int) -> Seq<
    (BlockId, OpId),
>
    decreases n,
{
    if n <= 0 {
        Seq::empty()
    } else if context.ir.op(ops[n - 1]) is Some {
        in_block(context, block, ops, n - 1).push((block, ops[n - 1]))
    } else {
        in_block(context, block, ops, n - 1)
    }
}

/// Every live operation the first `n` of `blocks` hold, in order, each with its
/// block.
pub open spec fn listed_upto(context: ContextView, blocks: Seq<BlockId>, n: int) -> Seq<
    (BlockId, OpId),
>
    decreases n,
{
    if n <= 0 {
        Seq::empty()
    } else {
        listed_upto(context, blocks, n - 1) + match context.ir.block(blocks[n - 1]) {
            Some(b) => in_block(context, blocks[n - 1], b.operations, b.operations.len() as int),
            None => Seq::empty(),
        }
    }
}

/// Every live operation `blocks` hold, in order, each with its block.
pub open spec fn listed(context: ContextView, blocks: Seq<BlockId>) -> Seq<(BlockId, OpId)> {
    listed_upto(context, blocks, blocks.len() as int)
}

/// Whether every operation of a list is live.
pub open spec fn listed_live(context: ContextView, list: Seq<(BlockId, OpId)>) -> bool {
    forall|k: int| 0 <= k < list.len() ==> context.ir.op((#[trigger] list[k]).1) is Some
}

/// Every live operation `blocks` hold, in order, each with its block.
pub fn listed_ops(context: &Context, blocks: &Vec<BlockId>) -> (r: Vec<(BlockId, OpId)>)
    requires
        context.inv(),
    ensures
        r@ == listed(context@, blocks@),
        listed_live(context@, r@),
{
    let mut r: Vec<(BlockId, OpId)> = Vec::new();
    let mut i: usize = 0;
    while i < blocks.len()
        invariant
            context.inv(),
            i <= blocks.len(),
            r@ =~= listed_upto(context@, blocks@, i as int),
            listed_live(context@, r@),
        decreases blocks.len() - i,
    {
        let block = blocks[i];
        if context.has_block(block) {
            let ops = copy_list(&context.block_ref(block).operations);
            let ghost before = r@;
            let mut j: usize = 0;
            while j < ops.len()
                invariant
                    context.inv(),
                    j <= ops.len(),
                    r@ =~= before + in_block(context@, block, ops@, j as int),
                    listed_live(context@, r@),
                decreases ops.len() - j,
            {
                if context.has_operation(ops[j]) {
                    r.push((block, ops[j]));
                }
                j += 1;
            }
        }
        i += 1;
    }
    r
}

/// The registers of a list of values.
pub open spec fn registers_in(context: ContextView, values: Seq<ValueId>, n: int) -> Seq<ValueId>
    decreases n,
{
    if n <= 0 {
        Seq::empty()
    } else {
        let before = registers_in(context, values, n - 1);
        if context.register_class(values[n - 1]) is Some {
            before.push(values[n - 1])
        } else {
            before
        }
    }
}

impl ContextView {
    /// The virtual registers `op` reads.
    pub open spec fn registers_read(self, op: OpId) -> Seq<ValueId> {
        let operands = self.ir.op(op)->0.operands;
        registers_in(self, operands, operands.len() as int)
    }

    /// The virtual registers `op` writes.
    pub open spec fn registers_written(self, op: OpId) -> Seq<ValueId> {
        let results = self.ir.op(op)->0.results;
        registers_in(self, results, results.len() as int)
    }

    /// The first virtual register a copy reads and the first it writes.
    pub open spec fn endpoints(self, op: OpId) -> Option<(u32, u32)> {
        if self.registers_read(op).len() > 0 && self.registers_written(op).len() > 0 {
            Some((self.registers_read(op)[0].0, self.registers_written(op)[0].0))
        } else {
            None
        }
    }
}

/// The registers of a list of values.
pub fn registers_of(context: &Context, values: &Vec<ValueId>) -> (r: Vec<ValueId>)
    requires
        context.inv(),
        context@.values_sound(),
    ensures
        r@ == registers_in(context@, values@, values@.len() as int),
{
    let mut r: Vec<ValueId> = Vec::new();
    let mut i: usize = 0;
    while i < values.len()
        invariant
            context.inv(),
            context@.values_sound(),
            i <= values.len(),
            r@ =~= registers_in(context@, values@, i as int),
        decreases values.len() - i,
    {
        assert(context@.value_sound(values@[i as int]));
        if value_class(context, values[i]).is_some() {
            r.push(values[i]);
        }
        i += 1;
    }
    r
}

/// The `(source, destination)` virtual registers of a copy op: its first read
/// and first written virtual register.
pub fn copy_endpoints(context: &Context, op: OpId) -> (r: Option<(u32, u32)>)
    requires
        context.inv(),
        context@.values_sound(),
        context@.ir.op(op) is Some,
    ensures
        r == context@.endpoints(op),
{
    let read = registers_of(context, context.operands_of(op));
    let written = registers_of(context, context.results_of(op));
    if read.len() > 0 && written.len() > 0 {
        Some((read[0].0, written[0].0))
    } else {
        None
    }
}

/// How often the first `n` of `list` name the virtual register `vreg`, read or
/// written.
pub open spec fn references(context: ContextView, list: Seq<(BlockId, OpId)>, vreg: u32, n: int) -> nat
    decreases n,
{
    if n <= 0 {
        0
    } else {
        references(context, list, vreg, n - 1) + occurrences(
            context.registers_written(list[n - 1].1) + context.registers_read(list[n - 1].1),
            vreg,
            (context.registers_written(list[n - 1].1) + context.registers_read(
                list[n - 1].1,
            )).len() as int,
        )
    }
}

/// How often `vreg` stands among the first `n` of `values`.
pub open spec fn occurrences(values: Seq<ValueId>, vreg: u32, n: int) -> nat
    decreases n,
{
    if n <= 0 {
        0
    } else {
        occurrences(values, vreg, n - 1) + if values[n - 1].0 == vreg {
            1nat
        } else {
            0
        }
    }
}

proof fn occurrences_grow(values: Seq<ValueId>, vreg: u32, n: int, m: int)
    requires
        n <= m,
    ensures
        occurrences(values, vreg, n) <= occurrences(values, vreg, m),
    decreases m - n,
{
    if n < m {
        occurrences_grow(values, vreg, n, m - 1);
    }
}

proof fn references_grow(
    context: ContextView,
    list: Seq<(BlockId, OpId)>,
    vreg: u32,
    n: int,
    m: int,
)
    requires
        n <= m,
    ensures
        references(context, list, vreg, n) <= references(context, list, vreg, m),
    decreases m - n,
{
    if n < m {
        references_grow(context, list, vreg, n, m - 1);
    }
}

/// Whether a table says how often each register is named, and nothing of those
/// that are not.
pub open spec fn counted_as(table: Seq<(u32, u32)>, counts: spec_fn(u32) -> nat) -> bool {
    forall|vreg: u32|
        #![trigger entry(table, vreg)]
        entry(table, vreg) == if counts(vreg) > 0 {
            Some(counts(vreg) as u32)
        } else {
            None
        }
}

/// Counts how many times each virtual register is referenced (written or read)
/// across a function, used to weight spill cost so the least-used register
/// spills first.
pub fn reference_counts(context: &Context, list: &Vec<(BlockId, OpId)>) -> (r: Vec<(u32, u32)>)
    requires
        context.inv(),
        context@.values_sound(),
        listed_live(context@, list@),
        forall|vreg: u32| #[trigger]
            references(context@, list@, vreg, list@.len() as int) <= u32::MAX,
    ensures
        counted_as(r@, |vreg: u32| references(context@, list@, vreg, list@.len() as int)),
{
    let mut r: Vec<(u32, u32)> = Vec::new();
    let mut i: usize = 0;
    while i < list.len()
        invariant
            context.inv(),
            context@.values_sound(),
            listed_live(context@, list@),
            forall|vreg: u32| #[trigger]
                references(context@, list@, vreg, list@.len() as int) <= u32::MAX,
            i <= list.len(),
            counted_as(r@, |vreg: u32| references(context@, list@, vreg, i as int)),
        decreases list.len() - i,
    {
        let op = list[i].1;
        assert(context@.ir.op(list@[i as int].1) is Some);
        let mut named = registers_of(context, context.results_of(op));
        let mut read = registers_of(context, context.operands_of(op));
        let ghost written = named@;
        let ghost used = read@;
        named.append(&mut read);
        assert(named@ =~= written + used);
        let ghost before = |vreg: u32| references(context@, list@, vreg, i as int);
        let mut j: usize = 0;
        assert(counted_as(r@, |vreg: u32| before(vreg) + occurrences(named@, vreg, 0))) by {
            assert forall|vreg: u32| #![trigger entry(r@, vreg)] entry(r@, vreg) == if (before(vreg)
                + occurrences(named@, vreg, 0)) > 0 {
                Some((before(vreg) + occurrences(named@, vreg, 0)) as u32)
            } else {
                None
            } by {}
        }
        while j < named.len()
            invariant
                i < list.len(),
                op == list@[i as int].1,
                j <= named.len(),
                named@ == context@.registers_written(op) + context@.registers_read(op),
                before == (|vreg: u32| references(context@, list@, vreg, i as int)),
                forall|vreg: u32| #[trigger]
                    references(context@, list@, vreg, list@.len() as int) <= u32::MAX,
                counted_as(
                    r@,
                    |vreg: u32| before(vreg) + occurrences(named@, vreg, j as int),
                ),
            decreases named.len() - j,
        {
            let vreg: u32 = named[j].0;
            let ghost table = r@;
            let n: u32 = match get_entry(&r, vreg) {
                Some(n) => n,
                None => 0,
            };
            proof {
                occurrences_grow(named@, vreg, j + 1, named@.len() as int);
                references_grow(context@, list@, vreg, i + 1, list@.len() as int);
                assert(references(context@, list@, vreg, list@.len() as int) <= u32::MAX);
                assert(references(context@, list@, vreg, i + 1) == before(vreg) + occurrences(
                    named@,
                    vreg,
                    named@.len() as int,
                ));
                let c = |v: u32| before(v) + occurrences(named@, v, j as int);
                assert(entry(table, vreg) == if c(vreg) > 0 {
                    Some(c(vreg) as u32)
                } else {
                    None
                });
            }
            set_entry(&mut r, vreg, n + 1);
            proof {
                let c = |v: u32| before(v) + occurrences(named@, v, j as int);
                let d = |v: u32| before(v) + occurrences(named@, v, j + 1);
                assert forall|v: u32| #![trigger entry(r@, v)] entry(r@, v) == if d(v) > 0 {
                    Some(d(v) as u32)
                } else {
                    None
                } by {
                    entry_is_read_back(table, vreg, (n + 1) as u32, v);
                    assert(entry(table, v) == if c(v) > 0 {
                        Some(c(v) as u32)
                    } else {
                        None
                    });
                }
            }
            j += 1;
        }
        proof {
            let c = |v: u32| before(v) + occurrences(named@, v, named@.len() as int);
            let d = |v: u32| references(context@, list@, v, i + 1);
            assert forall|v: u32| #![trigger entry(r@, v)] entry(r@, v) == if d(v) > 0 {
                Some(d(v) as u32)
            } else {
                None
            } by {
                assert(c(v) == d(v));
            }
        }
        i += 1;
    }
    r
}

/// The slot of the first of `slots` that holds `value`, by its port's class.
pub open spec fn class_in_slots(slots: Seq<SlotView>, value: ValueId, n: int) -> Option<
    Option<RegClassId>,
>
    decreases n,
{
    if n <= 0 {
        None
    } else {
        match class_in_slots(slots, value, n - 1) {
            Some(class) => Some(class),
            None => if slots[n - 1].slot == SlotKind::Value(value) {
                Some(slots[n - 1].port.class)
            } else {
                None
            },
        }
    }
}

/// The class of the port that first holds `value`, of the first `n` of `list`.
pub open spec fn class_in_list(
    context: ContextView,
    machine: Machine,
    list: Seq<(BlockId, OpId)>,
    value: ValueId,
    n: int,
) -> Option<Option<RegClassId>>
    decreases n,
{
    if n <= 0 {
        None
    } else {
        match class_in_list(context, machine, list, value, n - 1) {
            Some(class) => Some(class),
            None => {
                let slots = slots_of(context, machine, list[n - 1].1);
                class_in_slots(slots, value, slots.len() as int)
            },
        }
    }
}

/// The class `value` is read through: its own, or that of the first register
/// slot naming it.
pub open spec fn class_read_through(
    context: ContextView,
    machine: Machine,
    blocks: Seq<BlockId>,
    value: ValueId,
) -> Option<ClassView> {
    match context.register_class(value) {
        Some(class) => Some(class),
        None => {
            let list = listed(context, blocks);
            match class_in_list(context, machine, list, value, list.len() as int) {
                Some(Some(class)) => Some(class@),
                _ => None,
            }
        },
    }
}

proof fn class_in_slots_stays(slots: Seq<SlotView>, value: ValueId, n: int, m: int)
    requires
        0 < n <= m,
        class_in_slots(slots, value, n) is Some,
    ensures
        class_in_slots(slots, value, m) == class_in_slots(slots, value, n),
    decreases m - n,
{
    if n < m {
        class_in_slots_stays(slots, value, n, m - 1);
    }
}

proof fn class_in_list_stays(
    context: ContextView,
    machine: Machine,
    list: Seq<(BlockId, OpId)>,
    value: ValueId,
    n: int,
    m: int,
)
    requires
        0 < n <= m,
        class_in_list(context, machine, list, value, n) is Some,
    ensures
        class_in_list(context, machine, list, value, m) == class_in_list(
            context,
            machine,
            list,
            value,
            n,
        ),
    decreases m - n,
{
    if n < m {
        class_in_list_stays(context, machine, list, value, n, m - 1);
    }
}

/// The register class `value` is read through, for a value whose own type does
/// not name one (an `alloca` address): the class of the first register slot
/// naming it.
pub fn slot_class_of(
    context: &Context,
    machine: &Machine,
    blocks: &Vec<BlockId>,
    value: ValueId,
) -> (r: Option<RegClassId>)
    requires
        context.inv(),
        context@.sound(),
    ensures
        found_class(r, class_read_through(context@, *machine, blocks@, value)),
{
    assert(context@.value_sound(value));
    if let Some(class) = value_class(context, value) {
        return Some(class);
    }
    let list = listed_ops(context, blocks);
    let mut i: usize = 0;
    while i < list.len()
        invariant
            context.inv(),
            context@.sound(),
            i <= list.len(),
            list@ == listed(context@, blocks@),
            listed_live(context@, list@),
            context@.register_class(value) is None,
            class_in_list(context@, *machine, list@, value, i as int) is None,
        decreases list.len() - i,
    {
        let op = list[i].1;
        assert(context@.ir.op(list@[i as int].1) is Some);
        assert(context@.op_sound(op));
        let slots = reg_slots(context, machine, op);
        let ghost all = slots_of(context@, *machine, op);
        let mut j: usize = 0;
        while j < slots.len()
            invariant
                i < list.len(),
                op == list@[i as int].1,
                j <= slots.len(),
                all == slot_views(slots@),
                all == slots_of(context@, *machine, op),
                list@ == listed(context@, blocks@),
                context@.register_class(value) is None,
                class_in_list(context@, *machine, list@, value, i as int) is None,
                class_in_slots(all, value, j as int) is None,
            decreases slots.len() - j,
        {
            assert(all[j as int] == slots@[j as int]@);
            if let RegSlot::Value(held) = slots[j].slot {
                if held == value {
                    proof {
                        class_in_slots_stays(all, value, j + 1, all.len() as int);
                        class_in_list_stays(
                            context@,
                            *machine,
                            list@,
                            value,
                            i + 1,
                            list@.len() as int,
                        );
                    }
                    return slots[j].port.class;
                }
            }
            j += 1;
        }
        i += 1;
    }
    None
}

/// The outgoing stack area the calls among the first `n` of `list` need, and
/// whether there is any.
pub open spec fn outgoing(
    context: ContextView,
    machine: Machine,
    list: Seq<(BlockId, OpId)>,
    n: int,
) -> (u32, bool)
    decreases n,
{
    if n <= 0 {
        (0, false)
    } else {
        let before = outgoing(context, machine, list, n - 1);
        let op = list[n - 1].1;
        if machine.is_call(context.identity(op)) {
            let size = context.uint_attr(op, "outgoing_stack_size"@)->0;
            (
                if before.0 < size {
                    size as u32
                } else {
                    before.0
                },
                true,
            )
        } else {
            before
        }
    }
}

/// Whether a call among the first `n` of `list` asks for more than a frame can
/// hold.
pub open spec fn outgoing_too_large(
    context: ContextView,
    machine: Machine,
    list: Seq<(BlockId, OpId)>,
    n: int,
) -> bool {
    exists|i: int|
        0 <= i < n && machine.is_call(context.identity((#[trigger] list[i]).1))
            && context.uint_attr(list[i].1, "outgoing_stack_size"@)->0 > u32::MAX
}

/// The size of the outgoing argument area the calls of a function share, and
/// whether it makes any.
pub fn outgoing_stack_layout(
    context: &Context,
    machine: &Machine,
    list: &Vec<(BlockId, OpId)>,
) -> (r: Result<(u32, bool), PassError>)
    requires
        context.inv(),
        context@.sound(),
        listed_live(context@, list@),
        forall|i: int|
            0 <= i < list@.len() && machine.is_call(context@.identity((#[trigger] list@[i]).1))
                ==> context@.uint_attr(list@[i].1, "outgoing_stack_size"@) is Some,
    ensures
        if outgoing_too_large(context@, *machine, list@, list@.len() as int) {
            fails(
                r,
                PassErrorView::InvalidRuleSet("outgoing call frame exceeds 32-bit size"@),
            )
        } else {
            r == Ok::<(u32, bool), PassError>(
                outgoing(context@, *machine, list@, list@.len() as int),
            )
        },
{
    let mut size: u32 = 0;
    let mut has_calls = false;
    let mut i: usize = 0;
    while i < list.len()
        invariant
            context.inv(),
            context@.sound(),
            listed_live(context@, list@),
            forall|i: int|
                0 <= i < list@.len() && machine.is_call(
                    context@.identity((#[trigger] list@[i]).1),
                ) ==> context@.uint_attr(list@[i].1, "outgoing_stack_size"@) is Some,
            i <= list.len(),
            !outgoing_too_large(context@, *machine, list@, i as int),
            (size, has_calls) == outgoing(context@, *machine, list@, i as int),
        decreases list.len() - i,
    {
        let op = list[i].1;
        assert(context@.ir.op(list@[i as int].1) is Some);
        assert(context@.op_sound(op));
        let (dialect, name) = context.op_identity(op);
        if machine.enters(dialect, name) {
            has_calls = true;
            let asked: u64 = match uint_attr(context, op, "outgoing_stack_size") {
                Some(asked) => asked,
                None => 0,
            };
            if asked > u32::MAX as u64 {
                assert(machine.is_call(context@.identity(list@[i as int].1)));
                return Err(
                    PassError::InvalidRuleSet(
                        "outgoing call frame exceeds 32-bit size".to_owned(),
                    ),
                );
            }
            if size < asked as u32 {
                size = asked as u32;
            }
        }
        i += 1;
    }
    Ok((size, has_calls))
}

/// `before` with every one of `more` it does not hold yet, in order.
pub open spec fn joined(before: Seq<BlockId>, more: Seq<BlockId>) -> Seq<BlockId>
    decreases more.len(),
{
    if more.len() == 0 {
        before
    } else {
        let held = joined(before, more.drop_last());
        if held.contains(more.last()) {
            held
        } else {
            held.push(more.last())
        }
    }
}

/// The blocks the first `n` of `ops` lead to, each once, given what every
/// terminator says of itself.
pub open spec fn successors_of(
    ops: Seq<OpId>,
    terminators: Seq<(OpId, Vec<BlockId>)>,
    n: int,
) -> Seq<BlockId>
    decreases n,
{
    if n <= 0 {
        Seq::empty()
    } else {
        joined(
            successors_of(ops, terminators, n - 1),
            leads_to(terminators, ops[n - 1], terminators.len() as int),
        )
    }
}

/// Where the last of the first `n` of `terminators` that speaks of `op` leads.
pub open spec fn leads_to(terminators: Seq<(OpId, Vec<BlockId>)>, op: OpId, n: int) -> Seq<BlockId>
    decreases n,
{
    if n <= 0 {
        Seq::empty()
    } else if terminators[n - 1].0 == op {
        terminators[n - 1].1@
    } else {
        leads_to(terminators, op, n - 1)
    }
}

fn join_blocks(list: &mut Vec<BlockId>, more: &Vec<BlockId>)
    ensures
        final(list)@ == joined(old(list)@, more@),
{
    let mut i: usize = 0;
    assert(more@.take(0) =~= Seq::empty());
    while i < more.len()
        invariant
            i <= more.len(),
            list@ == joined(old(list)@, more@.take(i as int)),
        decreases more.len() - i,
    {
        let ghost held = list@;
        let next = more[i];
        let mut known = false;
        let mut k: usize = 0;
        while k < list.len()
            invariant
                k <= list.len(),
                list@ == held,
                known == held.take(k as int).contains(next),
            decreases list.len() - k,
        {
            proof {
                let t = held.take(k + 1);
                assert(t.drop_last() =~= held.take(k as int));
                if held[k as int] == next {
                    assert(t[k as int] == next);
                } else if held.take(k as int).contains(next) {
                    let j = choose|j: int| 0 <= j < k && held.take(k as int)[j] == next;
                    assert(t[j] == next);
                } else if t.contains(next) {
                    let j = choose|j: int| 0 <= j < k + 1 && t[j] == next;
                    assert(held.take(k as int)[j] == next);
                }
            }
            if list[k] == next {
                known = true;
            }
            k += 1;
        }
        assert(held.take(k as int) =~= held);
        if !known {
            list.push(next);
        }
        proof {
            let t = more@.take(i + 1);
            assert(t.drop_last() =~= more@.take(i as int));
            assert(t.last() == next);
        }
        i += 1;
    }
    assert(more@.take(i as int) =~= more@);
}

/// The blocks each of `blocks` leads to, each once: what the terminators among
/// its operations say, in order.
pub fn block_successors(
    context: &Context,
    blocks: &Vec<BlockId>,
    terminators: &Vec<(OpId, Vec<BlockId>)>,
) -> (r: Vec<(BlockId, Vec<BlockId>)>)
    requires
        context.inv(),
        context@.blocks_live(blocks@),
    ensures
        r@.len() == blocks@.len(),
        forall|i: int|
            0 <= i < blocks@.len() ==> (#[trigger] r@[i]).0 == blocks@[i] && ({
                let ops = context@.ir.block(blocks@[i])->0.operations;
                r@[i].1@ == successors_of(ops, terminators@, ops.len() as int)
            }),
{
    let mut r: Vec<(BlockId, Vec<BlockId>)> = Vec::new();
    let mut i: usize = 0;
    while i < blocks.len()
        invariant
            context.inv(),
            context@.blocks_live(blocks@),
            i <= blocks.len(),
            r@.len() == i,
            forall|k: int|
                0 <= k < i ==> (#[trigger] r@[k]).0 == blocks@[k] && ({
                    let ops = context@.ir.block(blocks@[k])->0.operations;
                    r@[k].1@ == successors_of(ops, terminators@, ops.len() as int)
                }),
        decreases blocks.len() - i,
    {
        let block = blocks[i];
        assert(context@.ir.block(blocks@[i as int]) is Some);
        let ops = &context.block_ref(block).operations;
        let mut found: Vec<BlockId> = Vec::new();
        assert(found@ =~= Seq::<BlockId>::empty());
        let mut k: usize = 0;
        while k < ops.len()
            invariant
                k <= ops.len(),
                found@ == successors_of(ops@, terminators@, k as int),
            decreases ops.len() - k,
        {
            let op = ops[k];
            let mut at: usize = terminators.len();
            while at > 0 && terminators[at - 1].0 != op
                invariant
                    at <= terminators.len(),
                    leads_to(terminators@, op, terminators@.len() as int) == leads_to(
                        terminators@,
                        op,
                        at as int,
                    ),
                decreases at,
            {
                at -= 1;
            }
            if at > 0 {
                join_blocks(&mut found, &terminators[at - 1].1);
            } else {
                assert(joined(found@, Seq::empty()) == found@);
            }
            k += 1;
        }
        r.push((block, found));
        i += 1;
    }
    r
}

} // verus!

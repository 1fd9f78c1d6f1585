//! What follows a successful allocation: copies between values in one register
//! go, callee-saved registers get their slots, stack arguments their loads, and
//! the frame its prologue and epilogues.
use vstd::prelude::*;
use crate::backend::abi::SaveStyle;
use crate::backend::classes::overlapping;
use crate::backend::classes::same_span;
use crate::backend::classes::span_of;
use crate::backend::classes::PhysReg;
use crate::backend::frame::placed_at;
use crate::backend::frame::FramePlan;
use crate::backend::instructions::fails;
use crate::backend::instructions::PassError;
use crate::backend::instructions::PassErrorView;
use crate::backend::listing::copy_endpoints;
use crate::backend::listing::listed_live;
use crate::backend::lower::strip_attr;
use crate::backend::tables::entry;
use crate::backend::tables::get_entry;
use crate::context::owned::block_owned;
use crate::context::owned::erased_exactly;
use crate::context::owned::op_owned;
use crate::context::owned::region_owned;
use crate::context::owned::value_owned;
use crate::context::Context;
use crate::context::ContextView;
use crate::ids::BlockId;
use crate::ids::OpId;
use crate::ids::ValueId;
use crate::ir::copy_list;
use crate::text::cat3;
use crate::text::decimal;
use crate::text::decimal_string;
use crate::text::same;
use crate::text::text_before;
use crate::text::text_less;
use crate::text::text_order_is_total;
use crate::text::text_order_is_transitive;

verus! {

/// A copy the allocator may coalesce away.
#[derive(Debug, Clone, Copy)]
pub struct CoalescableCopy {
    pub block: BlockId,
    pub op: OpId,
    pub src: u32,
    pub dst: u32,
}

impl ContextView {
    /// Whether `op` is a copy marked for coalescing.
    pub open spec fn is_coalescable(self, op: OpId) -> bool {
        self.attr(op, "coalescable_copy"@) is Some
    }
}

/// The marked copies among the first `n` of `list`.
pub open spec fn copies_in(context: ContextView, list: Seq<(BlockId, OpId)>, n: int) -> Seq<
    CoalescableCopy,
>
    decreases n,
{
    if n <= 0 {
        Seq::empty()
    } else {
        let before = copies_in(context, list, n - 1);
        let (block, op) = list[n - 1];
        if context.is_coalescable(op) {
            let ends = context.endpoints(op)->0;
            before.push(CoalescableCopy { block, op, src: ends.0, dst: ends.1 })
        } else {
            before
        }
    }
}

/// Why a marked copy among the first `n` of `list` is none.
pub open spec fn copy_failure(context: ContextView, list: Seq<(BlockId, OpId)>, n: int) -> Option<
    PassErrorView,
>
    decreases n,
{
    if n <= 0 {
        None
    } else {
        match copy_failure(context, list, n - 1) {
            Some(e) => Some(e),
            None => {
                let op = list[n - 1].1;
                if context.is_coalescable(op) && context.endpoints(op) is None {
                    Some(
                        PassErrorView::InvalidRuleSet(
                            "coalescable copy OpId("@ + decimal(op.0 as nat)
                                + ") does not move one virtual register to another"@,
                        ),
                    )
                } else {
                    None
                }
            },
        }
    }
}

proof fn copy_failure_stays(context: ContextView, list: Seq<(BlockId, OpId)>, n: int, m: int)
    requires
        0 < n <= m,
        copy_failure(context, list, n) is Some,
    ensures
        copy_failure(context, list, m) == copy_failure(context, list, n),
    decreases m - n,
{
    if n < m {
        copy_failure_stays(context, list, n, m - 1);
    }
}

/// The marked copies of a function. Their endpoint registers seed the
/// coalescing affinity, and after allocation a copy whose endpoints landed in
/// one register is erased.
pub fn collect_coalescable_copies(context: &Context, list: &Vec<(BlockId, OpId)>) -> (r: Result<
    Vec<CoalescableCopy>,
    PassError,
>)
    requires
        context.inv(),
        context@.values_sound(),
        listed_live(context@, list@),
    ensures
        match copy_failure(context@, list@, list@.len() as int) {
            Some(e) => fails(r, e),
            None => r is Ok && r->Ok_0@ == copies_in(context@, list@, list@.len() as int),
        },
{
    let mut r: Vec<CoalescableCopy> = Vec::new();
    let mut i: usize = 0;
    while i < list.len()
        invariant
            context.inv(),
            context@.values_sound(),
            listed_live(context@, list@),
            i <= list.len(),
            copy_failure(context@, list@, i as int) is None,
            r@ =~= copies_in(context@, list@, i as int),
        decreases list.len() - i,
    {
        let (block, op) = list[i];
        assert(context@.ir.op(list@[i as int].1) is Some);
        if context.with_attr(op, "coalescable_copy").is_some() {
            match copy_endpoints(context, op) {
                Some((src, dst)) => {
                    r.push(CoalescableCopy { block, op, src, dst });
                },
                None => {
                    proof {
                        copy_failure_stays(context@, list@, i + 1, list@.len() as int);
                    }
                    let message = cat3(
                        "coalescable copy OpId(",
                        decimal_string(op.0 as u64).as_str(),
                        ") does not move one virtual register to another",
                    );
                    return Err(PassError::InvalidRuleSet(message));
                },
            }
        }
        i += 1;
    }
    Ok(r)
}

/// Whether the two registers a copy moves between were given one register.
pub open spec fn one_register(assignment: Seq<(u32, PhysReg)>, ends: Option<(u32, u32)>) -> bool {
    match ends {
        Some((src, dst)) => match (entry(assignment, src), entry(assignment, dst)) {
            (Some(a), Some(b)) => span_of(*a.0.0, a.1) == span_of(*b.0.0, b.1),
            _ => false,
        },
        None => false,
    }
}

/// Whether `after` is `before` with `op` taken out of `block`, where it holds
/// it, and with everything the operation owns gone but its results.
pub open spec fn erased_keeping(
    before: ContextView,
    after: ContextView,
    block: BlockId,
    op: OpId,
    keep: Seq<ValueId>,
) -> bool {
    let detached = match before.position_in(block, op) {
        Some(at) => before.with_op_removed(block, at, op),
        None => before,
    };
    after == detached.with_ir(after.ir) && erased_exactly(
        detached.ir,
        after.ir,
        |x: OpId| op_owned(detached.ir, seq![op], Seq::empty(), x),
        |v: ValueId|
            value_owned(detached.ir, seq![op], Seq::empty(), v) && !keep.contains(v),
        |b: BlockId| block_owned(detached.ir, seq![op], Seq::empty(), b),
        |x: crate::ids::RegionId| region_owned(detached.ir, seq![op], Seq::empty(), x),
    )
}

/// Takes `op` out of `block` and erases it, its results staying.
pub fn erase_op_keeping_results(context: &mut Context, block: BlockId, op: OpId)
    requires
        old(context).inv(),
        old(context)@.ir.op(op) is Some,
    ensures
        final(context).inv(),
        erased_keeping(
            old(context)@,
            final(context)@,
            block,
            op,
            old(context)@.ir.op(op)->0.results,
        ),
{
    let keep = copy_list(context.results_of(op));
    let _ = context.remove_op_from_block(block, op);
    context.remove_operation_except(op, &keep);
}

/// One copy settled: it goes where both its ends live in one register, its
/// destination staying, since the assignment placed it and a two-address
/// instruction may define it again; otherwise it is an ordinary copy.
pub open spec fn copy_settled(
    before: ContextView,
    after: ContextView,
    copy: CoalescableCopy,
    assignment: Seq<(u32, PhysReg)>,
) -> bool {
    if before.ir.op(copy.op) is None {
        after == before
    } else if one_register(assignment, before.endpoints(copy.op)) {
        erased_keeping(
            before,
            after,
            copy.block,
            copy.op,
            before.ir.op(copy.op)->0.results,
        )
    } else {
        after == before.without_attr(copy.op, "coalescable_copy"@)
    }
}

proof fn settling_keeps_types(
    before: ContextView,
    after: ContextView,
    copy: CoalescableCopy,
    assignment: Seq<(u32, PhysReg)>,
)
    requires
        before.values_sound(),
        copy_settled(before, after, copy, assignment),
    ensures
        after.values_sound(),
{
    assert forall|id: ValueId| #[trigger] after.value_sound(id) by {
        assert(before.value_sound(id));
    }
}

/// Whether `after` is `before` with every one of `copies` settled, in order.
pub open spec fn copies_settled(
    before: ContextView,
    after: ContextView,
    copies: Seq<CoalescableCopy>,
    assignment: Seq<(u32, PhysReg)>,
) -> bool {
    exists|steps: Seq<ContextView>|
        #![trigger steps.len()]
        steps.len() == copies.len() + 1 && steps[0] == before && steps.last() == after && forall|
            i: int,
        |
            0 <= i < copies.len() ==> copy_settled(
                steps[i],
                steps[i + 1],
                #[trigger] copies[i],
                assignment,
            )
}

/// Settles every marked copy, the endpoints read as they stand: spilling and an
/// earlier erasure may have renamed either end since collection.
pub fn settle_copies(
    context: &mut Context,
    copies: &Vec<CoalescableCopy>,
    assignment: &Vec<(u32, PhysReg)>,
)
    requires
        old(context).inv(),
        old(context)@.values_sound(),
    ensures
        final(context).inv(),
        final(context)@.values_sound(),
        copies_settled(old(context)@, final(context)@, copies@, assignment@),
{
    let ghost mut steps: Seq<ContextView> = seq![context@];
    let mut i: usize = 0;
    while i < copies.len()
        invariant
            i <= copies.len(),
            context.inv(),
            context@.values_sound(),
            steps.len() == i + 1,
            steps[0] == old(context)@,
            steps.last() == context@,
            forall|k: int|
                0 <= k < i ==> copy_settled(
                    steps[k],
                    steps[k + 1],
                    #[trigger] copies@[k],
                    assignment@,
                ),
        decreases copies.len() - i,
    {
        let copy = copies[i];
        let ghost before = context@;
        if context.has_operation(copy.op) {
            let mut erasable = false;
            if let Some((src, dst)) = copy_endpoints(context, copy.op) {
                let a = get_entry(assignment, src);
                let b = get_entry(assignment, dst);
                if let (Some(a), Some(b)) = (a, b) {
                    erasable = same_span(&a, &b);
                }
            }
            if erasable {
                erase_op_keeping_results(context, copy.block, copy.op);
            } else {
                strip_attr(context, copy.op, "coalescable_copy");
            }
        }
        proof {
            assert(copy_settled(before, context@, copy, assignment@));
            settling_keeps_types(before, context@, copy, assignment@);
            let held = steps;
            steps = steps.push(context@);
            assert forall|k: int| 0 <= k < i + 1 implies copy_settled(
                steps[k],
                steps[k + 1],
                #[trigger] copies@[k],
                assignment@,
            ) by {
                if k < i {
                    assert(steps[k] == held[k] && steps[k + 1] == held[k + 1]);
                }
            }
        }
        i += 1;
    }
    assert(steps.len() == copies@.len() + 1);
}

/// The first of `saved` that `register` overlaps.
pub open spec fn saved_as(saved: Seq<PhysReg>, register: PhysReg) -> Option<PhysReg>
    decreases saved.len(),
{
    if saved.len() == 0 {
        None
    } else if overlapping(register, saved[0]) {
        Some(saved[0])
    } else {
        saved_as(saved.skip(1), register)
    }
}

/// Whether an allocation used the callee-saved register `p`.
pub open spec fn is_saved(
    assignment: Seq<(u32, PhysReg)>,
    saved: Seq<PhysReg>,
    p: PhysReg,
    n: int,
) -> bool {
    exists|i: int|
        0 <= i < n && saved_as(saved, (#[trigger] assignment[i]).1) == Some(p)
}

/// Whether two registers are the same: one class, one index.
pub open spec fn same_register(a: PhysReg, b: PhysReg) -> bool {
    a.0.0.key == b.0.0.key && a.1 == b.1
}

/// Whether `a` is listed no later than `b`: by class name, then by index.
pub open spec fn register_le(a: PhysReg, b: PhysReg) -> bool {
    text_less(a.0.0.name@, b.0.0.name@) || (a.0.0.name@ == b.0.0.name@ && a.1 <= b.1)
}

/// Whether registers are listed by class name, then by index.
pub open spec fn registers_sorted(list: Seq<PhysReg>) -> bool {
    forall|i: int, j: int|
        0 <= i < j < list.len() ==> register_le(#[trigger] list[i], #[trigger] list[j])
}

/// Whether no register is listed twice.
pub open spec fn registers_distinct(list: Seq<PhysReg>) -> bool {
    forall|i: int, j: int|
        0 <= i < j < list.len() ==> !same_register(#[trigger] list[i], #[trigger] list[j])
}

fn saved_register(saved: &Vec<PhysReg>, register: PhysReg) -> (r: Option<PhysReg>)
    ensures
        r == saved_as(saved@, register),
{
    let ghost all = saved@;
    assert(all.skip(0) =~= all);
    let mut i: usize = 0;
    while i < saved.len()
        invariant
            i <= saved.len(),
            all == saved@,
            saved_as(all, register) == saved_as(all.skip(i as int), register),
        decreases saved.len() - i,
    {
        assert(all.skip(i as int)[0] == all[i as int]);
        assert(all.skip(i as int).skip(1) =~= all.skip(i + 1));
        let candidate = saved[i];
        if register.0.overlaps(register.1, candidate.0, candidate.1) {
            return Some(candidate);
        }
        i += 1;
    }
    assert(all.skip(i as int).len() == 0);
    None
}

fn register_after(a: PhysReg, b: PhysReg) -> (r: bool)
    ensures
        r == !register_le(a, b),
{
    proof {
        text_order_is_total(a.0.0.name@, b.0.0.name@);
    }
    let ahead = text_before(a.0.name(), b.0.name());
    let alike = same(a.0.name(), b.0.name());
    !(ahead || (alike && a.1 <= b.1))
}

proof fn register_order(a: PhysReg, b: PhysReg, c: PhysReg)
    ensures
        register_le(a, b) || register_le(b, a),
        register_le(a, b) && register_le(b, c) ==> register_le(a, c),
{
    text_order_is_total(a.0.0.name@, b.0.0.name@);
    if register_le(a, b) && register_le(b, c) {
        if text_less(a.0.0.name@, b.0.0.name@) && text_less(b.0.0.name@, c.0.0.name@) {
            text_order_is_transitive(a.0.0.name@, b.0.0.name@, c.0.0.name@);
        }
    }
}

fn place_sorted(list: &mut Vec<PhysReg>, p: PhysReg)
    requires
        registers_sorted(old(list)@),
        registers_distinct(old(list)@),
    ensures
        registers_sorted(final(list)@),
        registers_distinct(final(list)@),
        forall|q: PhysReg| #[trigger] old(list)@.contains(q) ==> final(list)@.contains(q),
        forall|q: PhysReg| #[trigger] final(list)@.contains(q) ==> old(list)@.contains(q) || q == p,
        exists|i: int|
            0 <= i < final(list)@.len() && same_register(#[trigger] final(list)@[i], p),
{
    let mut k: usize = 0;
    while k < list.len()
        invariant
            k <= list.len(),
            list@ == old(list)@,
            registers_sorted(list@),
            registers_distinct(list@),
            forall|j: int| 0 <= j < k ==> !same_register(#[trigger] list@[j], p),
        decreases list.len() - k,
    {
        if list[k].0 == p.0 && list[k].1 == p.1 {
            assert(same_register(list@[k as int], p));
            return;
        }
        k += 1;
    }
    let ghost before = list@;
    let mut at: usize = list.len();
    while at > 0 && register_after(list[at - 1], p)
        invariant
            at <= list.len(),
            list@ == before,
            forall|j: int| at <= j < before.len() ==> !register_le(#[trigger] before[j], p),
        decreases at,
    {
        at -= 1;
    }
    list.insert(at, p);
    proof {
        let after = list@;
        assert(after =~= before.insert(at as int, p));
        assert(after[at as int] == p);
        assert forall|i: int, j: int| 0 <= i < j < after.len() implies register_le(
            #[trigger] after[i],
            #[trigger] after[j],
        ) by {
            let x = if i < at {
                i
            } else {
                i - 1
            };
            let y = if j < at {
                j
            } else {
                j - 1
            };
            if i == at {
                assert(after[j] == before[y]);
                register_order(p, before[y], p);
            } else if j == at {
                assert(after[i] == before[i]);
                if i < at - 1 {
                    assert(register_le(before[i], before[at - 1]));
                }
                register_order(before[i], before[at - 1], p);
            } else {
                assert(after[i] == before[x]);
                assert(after[j] == before[y]);
            }
        }
        assert forall|i: int, j: int| 0 <= i < j < after.len() implies !same_register(
            #[trigger] after[i],
            #[trigger] after[j],
        ) by {
            let x = if i < at {
                i
            } else {
                i - 1
            };
            let y = if j < at {
                j
            } else {
                j - 1
            };
            if i == at {
                assert(after[j] == before[y]);
                assert(!same_register(before[y], p));
            } else if j == at {
                assert(after[i] == before[x]);
                assert(!same_register(before[x], p));
            } else {
                assert(after[i] == before[x]);
                assert(after[j] == before[y]);
            }
        }
        assert forall|q: PhysReg| #[trigger] before.contains(q) implies after.contains(q) by {
            let m = choose|m: int| 0 <= m < before.len() && before[m] == q;
            if m < at {
                assert(after[m] == q);
            } else {
                assert(after[m + 1] == q);
            }
        }
        assert forall|q: PhysReg| #[trigger] after.contains(q) implies before.contains(q)
            || q == p by {
            let m = choose|m: int| 0 <= m < after.len() && after[m] == q;
            if m < at {
                assert(before[m] == q);
            } else if m > at {
                assert(before[m - 1] == q);
            }
        }
    }
}

/// Where the first `n` of `registers` are saved, from `next` on: one after
/// another in frame slots, or nowhere where they are pushed.
pub open spec fn save_offsets(
    registers: Seq<PhysReg>,
    style: SaveStyle,
    slot_size: u32,
    next: i64,
    n: int,
) -> (Seq<(PhysReg, i64)>, i64)
    decreases n,
{
    if n <= 0 {
        (Seq::empty(), next)
    } else {
        let (before, reached) = save_offsets(registers, style, slot_size, next, n - 1);
        if style == SaveStyle::FrameSlots {
            let offset = placed_at(reached, slot_size) as i64;
            (before.push((registers[n - 1], offset)), (offset + slot_size) as i64)
        } else {
            (before.push((registers[n - 1], 0)), reached)
        }
    }
}

/// The callee-saved physical registers an allocation used: in the order of
/// class name and index, each once, each under the convention's own spelling.
pub open spec fn saves(
    assignment: Seq<(u32, PhysReg)>,
    saved: Seq<PhysReg>,
    registers: Seq<PhysReg>,
) -> bool {
    &&& registers_sorted(registers)
    &&& registers_distinct(registers)
    &&& forall|i: int|
        0 <= i < registers.len() ==> is_saved(
            assignment,
            saved,
            #[trigger] registers[i],
            assignment.len() as int,
        )
    &&& forall|p: PhysReg|
        #![trigger is_saved(assignment, saved, p, assignment.len() as int)]
        is_saved(assignment, saved, p, assignment.len() as int) ==> exists|i: int|
            0 <= i < registers.len() && same_register(#[trigger] registers[i], p)
}

fn used_registers(assignment: &Vec<(u32, PhysReg)>, saved: &Vec<PhysReg>) -> (registers: Vec<
    PhysReg,
>)
    ensures
        saves(assignment@, saved@, registers@),
        registers@.len() <= assignment@.len(),
{
    let mut registers: Vec<PhysReg> = Vec::new();
    let mut i: usize = 0;
    while i < assignment.len()
        invariant
            i <= assignment.len(),
            registers.len() <= i,
            registers_sorted(registers@),
            registers_distinct(registers@),
            forall|k: int|
                0 <= k < registers@.len() ==> is_saved(
                    assignment@,
                    saved@,
                    #[trigger] registers@[k],
                    i as int,
                ),
            forall|p: PhysReg|
                #![trigger is_saved(assignment@, saved@, p, i as int)]
                is_saved(assignment@, saved@, p, i as int) ==> exists|k: int|
                    0 <= k < registers@.len() && same_register(#[trigger] registers@[k], p),
        decreases assignment.len() - i,
    {
        let ghost before = registers@;
        match saved_register(saved, assignment[i].1) {
            Some(p) => {
                place_sorted(&mut registers, p);
                proof {
                    assert(is_saved(assignment@, saved@, p, i + 1)) by {
                        assert(saved_as(saved@, assignment@[i as int].1) == Some(p));
                    }
                    assert forall|k: int| 0 <= k < registers@.len() implies is_saved(
                        assignment@,
                        saved@,
                        #[trigger] registers@[k],
                        i + 1,
                    ) by {
                        let q = registers@[k];
                        assert(registers@.contains(q));
                        if q != p {
                            assert(before.contains(q));
                            let m = choose|m: int| 0 <= m < before.len() && before[m] == q;
                            assert(is_saved(assignment@, saved@, before[m], i as int));
                            let e = choose|e: int|
                                0 <= e < i && saved_as(saved@, (#[trigger] assignment@[e]).1)
                                    == Some(q);
                            assert(saved_as(saved@, assignment@[e].1) == Some(q));
                        }
                    }
                    assert forall|q: PhysReg|
                        #![trigger is_saved(assignment@, saved@, q, i + 1)]
                        is_saved(assignment@, saved@, q, i + 1) implies exists|k: int|
                        0 <= k < registers@.len() && same_register(#[trigger] registers@[k], q) by {
                        let e = choose|e: int|
                            0 <= e < i + 1 && saved_as(saved@, (#[trigger] assignment@[e]).1)
                                == Some(q);
                        if e < i {
                            assert(is_saved(assignment@, saved@, q, i as int));
                            let k = choose|k: int|
                                0 <= k < before.len() && same_register(#[trigger] before[k], q);
                            assert(before.contains(before[k]));
                            assert(registers@.contains(before[k]));
                            let m = choose|m: int|
                                0 <= m < registers@.len() && registers@[m] == before[k];
                            assert(same_register(registers@[m], q));
                        }
                    }
                    sorted_len(before, registers@, p);
                }
            },
            None => {
                proof {
                    assert forall|k: int| 0 <= k < registers@.len() implies is_saved(
                        assignment@,
                        saved@,
                        #[trigger] registers@[k],
                        i + 1,
                    ) by {
                        let q = registers@[k];
                        assert(is_saved(assignment@, saved@, registers@[k], i as int));
                        let e = choose|e: int|
                            0 <= e < i && saved_as(saved@, (#[trigger] assignment@[e]).1)
                                == Some(q);
                        assert(saved_as(saved@, assignment@[e].1) == Some(q));
                    }
                    assert forall|q: PhysReg|
                        #![trigger is_saved(assignment@, saved@, q, i + 1)]
                        is_saved(assignment@, saved@, q, i + 1) implies exists|k: int|
                        0 <= k < registers@.len() && same_register(#[trigger] registers@[k], q) by {
                        let e = choose|e: int|
                            0 <= e < i + 1 && saved_as(saved@, (#[trigger] assignment@[e]).1)
                                == Some(q);
                        assert(e < i);
                        assert(is_saved(assignment@, saved@, q, i as int));
                    }
                }
            },
        }
        i += 1;
    }
    registers
}

/// The callee-saved physical registers the allocation actually used, each paired
/// with a freshly reserved frame slot. A callee-saved register belongs to the
/// caller; if this function colors a value into one it must save and restore it
/// around the body. A value allocated through a narrower view of one names the
/// same physical register, and it is saved once, in full.
pub fn callee_saved_slots(
    assignment: &Vec<(u32, PhysReg)>,
    frame: &mut FramePlan,
    saved: &Vec<PhysReg>,
) -> (r: Vec<(PhysReg, i64)>)
    requires
        0 <= old(frame).next_offset,
        old(frame).next_offset + (assignment@.len() + 1) * (2 * old(frame).slot_size + 1)
            <= i64::MAX,
    ensures
        final(frame).same_but_offset(*old(frame)),
        r@.len() <= assignment@.len(),
        0 <= final(frame).next_offset <= old(frame).next_offset + assignment@.len() * (2 * old(
            frame,
        ).slot_size + 1),
        exists|registers: Seq<PhysReg>| #[trigger]
            saves(assignment@, saved@, registers) && (r@, final(frame).next_offset)
                == save_offsets(
                registers,
                old(frame).save_style,
                old(frame).slot_size,
                old(frame).next_offset,
                registers.len() as int,
            ),
{
    let registers = used_registers(assignment, saved);
    let ghost start = frame.next_offset;
    let ghost shape = *frame;
    let ghost step: int = 2 * shape.slot_size + 1;
    let mut r: Vec<(PhysReg, i64)> = Vec::new();
    let mut k: usize = 0;
    assert(r@ =~= Seq::empty());
    while k < registers.len()
        invariant
            k <= registers.len(),
            registers.len() <= assignment.len(),
            r.len() == k,
            frame.same_but_offset(shape),
            step == 2 * shape.slot_size + 1,
            0 <= start,
            0 <= frame.next_offset <= start + k * step,
            start + (assignment@.len() + 1) * step <= i64::MAX,
            (r@, frame.next_offset) == save_offsets(
                registers@,
                shape.save_style,
                shape.slot_size,
                start,
                k as int,
            ),
        decreases registers.len() - k,
    {
        proof {
            assert((k + 1) * step <= (assignment@.len() + 1) * step) by (nonlinear_arith)
                requires
                    k < assignment@.len(),
                    step >= 0,
            ;
            assert((k + 1) * step == k * step + step) by (nonlinear_arith);
            crate::backend::frame::rounding_reaches_a_multiple(
                frame.next_offset as int,
                if shape.slot_size == 0 {
                    1
                } else {
                    shape.slot_size as int
                },
            );
        }
        let offset: i64 = frame.alloc_callee_save();
        r.push((registers[k], offset));
        k += 1;
    }
    proof {
        assert(k * step <= assignment@.len() * step) by (nonlinear_arith)
            requires
                k <= assignment@.len(),
                step >= 0,
        ;
    }
    assert(saves(assignment@, saved@, registers@));
    r
}

proof fn sorted_len(before: Seq<PhysReg>, after: Seq<PhysReg>, p: PhysReg)
    requires
        registers_distinct(after),
        forall|q: PhysReg| #[trigger] after.contains(q) ==> before.contains(q) || q == p,
    ensures
        after.len() <= before.len() + 1,
{
    assert(after.no_duplicates()) by {
        assert forall|i: int, j: int|
            0 <= i < after.len() && 0 <= j < after.len() && i != j implies after[i]
            != after[j] by {
            if i < j {
                assert(!same_register(after[i], after[j]));
            } else {
                assert(!same_register(after[j], after[i]));
            }
        }
    }
    after.unique_seq_to_set();
    let all = before.push(p);
    assert(after.to_set().subset_of(all.to_set())) by {
        assert forall|q: PhysReg| after.to_set().contains(q) implies all.to_set().contains(q) by {
            assert(after.contains(q));
            if q == p {
                assert(all[before.len() as int] == p);
            } else {
                let m = choose|m: int| 0 <= m < before.len() && before[m] == q;
                assert(all[m] == q);
            }
            assert(all.contains(q));
        }
    }
    all.lemma_cardinality_of_set();
    vstd::set_lib::lemma_len_subset(after.to_set(), all.to_set());
}

} // verus!

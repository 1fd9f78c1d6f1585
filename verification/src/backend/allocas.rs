//! Stack allocations: where each lies in the frame, and how its address is
//! recomputed where it is used.
use vstd::prelude::*;
use crate::backend::abi::default_class_of;
use crate::backend::abi::AbiInfo;
use crate::backend::abi::ValueKind;
use crate::backend::classes::ClassView;
use crate::backend::classes::PhysReg;
use crate::backend::classes::RegClassId;
use crate::backend::frame::placed_at;
use crate::backend::frame::FramePlan;
use crate::backend::instructions::adding_keeps_blocks;
use crate::backend::instructions::all_wf;
use crate::backend::instructions::fails;
use crate::backend::instructions::insert_before;
use crate::backend::instructions::instruction_views;
use crate::backend::instructions::Instruction;
use crate::backend::instructions::InstructionView;
use crate::backend::instructions::PassError;
use crate::backend::instructions::PassErrorView;
use crate::backend::listing::class_read_through;
use crate::backend::listing::listed_live;
use crate::backend::listing::slot_class_of;
use crate::access::uint_attr;
use crate::backend::registers::fresh_reg;
use crate::backend::registers::Machine;
use crate::backend::spill::operands_set;
use crate::backend::spill::positions;
use crate::backend::spill::set_operands;
use crate::backend::target::reg_view;
use crate::backend::target::RegView;
use crate::backend::target::TargetRegAlloc;
use crate::context::owned::reclaimed;
use crate::context::kept::keeps;
use crate::context::Context;
use crate::context::ContextView;
use crate::ids::BlockId;
use crate::ids::OpId;
use crate::ids::ValueId;
use crate::text::cat3;
use crate::text::decimal;
use crate::text::decimal_string;

verus! {

/// A stack allocation of a function and where it lies in the frame.
#[derive(Debug, Clone, Copy)]
pub struct StackAlloca {
    pub op_id: OpId,
    pub block: BlockId,
    pub value: ValueId,
    pub offset: i64,
}

/// What collecting changes: the allocations found, and how far the frame
/// reaches.
pub ghost struct AllocaState {
    pub found: Seq<StackAlloca>,
    pub next_offset: i64,
}

impl ContextView {
    /// Whether `op` allocates stack memory and answers its address.
    pub open spec fn is_alloca(self, op: OpId) -> bool {
        self.is_op(op, "ptr"@, "alloca"@) && self.ir.op(op)->0.results.len() > 0
    }

    /// The size a stack allocation asks for.
    pub open spec fn alloca_size(self, op: OpId) -> u32 {
        (self.uint_attr(op, "size"@)->0 as u64) as u32
    }

    /// The alignment a stack allocation asks for.
    pub open spec fn alloca_align(self, op: OpId) -> u32 {
        (self.uint_attr(op, "align"@)->0 as u64) as u32
    }
}

/// After the stack allocations among the first `n` of `list` were placed.
pub open spec fn allocas_of(
    context: ContextView,
    list: Seq<(BlockId, OpId)>,
    state: AllocaState,
    n: int,
) -> AllocaState
    decreases n,
{
    if n <= 0 {
        state
    } else {
        let before = allocas_of(context, list, state, n - 1);
        let (block, op) = list[n - 1];
        if context.is_alloca(op) {
            let offset = placed_at(before.next_offset, context.alloca_align(op)) as i64;
            AllocaState {
                found: before.found.push(
                    StackAlloca {
                        op_id: op,
                        block,
                        value: context.ir.op(op)->0.results[0],
                        offset,
                    },
                ),
                next_offset: (offset + context.alloca_size(op)) as i64,
            }
        } else {
            before
        }
    }
}

/// Whether every stack allocation of `list` says its size and alignment, and
/// the first `n` fit a frame.
pub open spec fn allocas_fit(
    context: ContextView,
    list: Seq<(BlockId, OpId)>,
    state: AllocaState,
    n: int,
) -> bool
    decreases n,
{
    n > 0 ==> {
        let before = allocas_of(context, list, state, n - 1);
        let op = list[n - 1].1;
        &&& allocas_fit(context, list, state, n - 1)
        &&& context.is_alloca(op) ==> {
            &&& context.uint_attr(op, "size"@) is Some
            &&& context.uint_attr(op, "align"@) is Some
            &&& 0 <= before.next_offset
            &&& before.next_offset + context.alloca_size(op) + context.alloca_align(op) + 1
                <= i64::MAX
        }
    }
}

proof fn allocas_fit_before(
    context: ContextView,
    list: Seq<(BlockId, OpId)>,
    state: AllocaState,
    n: int,
    m: int,
)
    requires
        0 <= n <= m,
        allocas_fit(context, list, state, m),
    ensures
        allocas_fit(context, list, state, n),
    decreases m - n,
{
    if n < m {
        allocas_fit_before(context, list, state, n, m - 1);
    }
}

/// Finds the stack allocations of a function and places each in the frame.
pub fn collect_stack_allocas(
    context: &Context,
    list: &Vec<(BlockId, OpId)>,
    frame: &mut FramePlan,
) -> (r: Vec<StackAlloca>)
    requires
        context.inv(),
        context@.sound(),
        listed_live(context@, list@),
        allocas_fit(
            context@,
            list@,
            AllocaState { found: Seq::empty(), next_offset: old(frame).next_offset },
            list@.len() as int,
        ),
    ensures
        allocas_of(
            context@,
            list@,
            AllocaState { found: Seq::empty(), next_offset: old(frame).next_offset },
            list@.len() as int,
        ) == (AllocaState { found: r@, next_offset: final(frame).next_offset }),
        final(frame).same_but_offset(*old(frame)),
{
    let ghost state = AllocaState { found: Seq::empty(), next_offset: frame.next_offset };
    let ghost shape = *frame;
    let mut r: Vec<StackAlloca> = Vec::new();
    let mut i: usize = 0;
    assert(r@ =~= Seq::empty());
    while i < list.len()
        invariant
            context.inv(),
            context@.sound(),
            listed_live(context@, list@),
            allocas_fit(context@, list@, state, list@.len() as int),
            i <= list.len(),
            frame.same_but_offset(shape),
            allocas_of(context@, list@, state, i as int) == (AllocaState {
                found: r@,
                next_offset: frame.next_offset,
            }),
        decreases list.len() - i,
    {
        let (block, op) = list[i];
        assert(context@.ir.op(list@[i as int].1) is Some);
        assert(context@.op_sound(op));
        proof {
            allocas_fit_before(context@, list@, state, i + 1, list@.len() as int);
        }
        if context.get_op(op).is_name(context, "ptr", "alloca") && context.results_of(op).len()
            > 0 {
            let value = context.results_of(op)[0];
            let size: u64 = match uint_attr(context, op, "size") {
                Some(size) => size,
                None => 0,
            };
            let align: u64 = match uint_attr(context, op, "align") {
                Some(align) => align,
                None => 0,
            };
            let size32: u32 = #[verifier::truncate]
            (size as u32);
            let align32: u32 = #[verifier::truncate]
            (align as u32);
            let offset: i64 = frame.alloc_stack_allocation(size32, align32);
            let ghost before = r@;
            r.push(StackAlloca { op_id: op, block, value, offset });
        }
        i += 1;
    }
    r
}

/// With every one of the first `n` of `list` stored just before `op`.
pub open spec fn inserted_before(
    context: ContextView,
    block: BlockId,
    op: OpId,
    list: Seq<InstructionView>,
    n: int,
) -> ContextView
    decreases n,
{
    if n <= 0 {
        context
    } else {
        inserted_before(context, block, op, list, n - 1).with_instruction_before(
            block,
            op,
            list[n - 1],
        )
    }
}

/// Storing changes which operations the block holds, and nothing else of it: it
/// still holds `op`.
pub proof fn inserting_keeps_position(
    context: ContextView,
    block: BlockId,
    op: OpId,
    instruction: InstructionView,
)
    requires
        context.position_in(block, op) is Some,
    ensures
        context.with_instruction_before(block, op, instruction).position_in(block, op) is Some,
{
    adding_keeps_blocks(context, instruction);
    let ops = context.ir.block(block)->0.operations;
    crate::context::edits::first_position_is_first(ops, op);
    let p = context.position_in(block, op)->0;
    let after = ops.insert(p, context.next_op());
    assert(after[p + 1] == op);
    crate::context::edits::first_position_is_first(after, op);
    assert(after.contains(op));
}

/// Storing `n` instructions mints `n` operations, and the block still holds
/// `op`.
pub proof fn inserting_mints_by_count(
    context: ContextView,
    block: BlockId,
    op: OpId,
    list: Seq<InstructionView>,
    n: int,
)
    requires
        0 <= n,
        context.position_in(block, op) is Some,
    ensures
        inserted_before(context, block, op, list, n).position_in(block, op) is Some,
        inserted_before(context, block, op, list, n).ir.ops.now.len() == context.ir.ops.now.len()
            + n,
        inserted_before(context, block, op, list, n).names.len() <= context.names.len() + n,
        inserted_before(context, block, op, list, n).ir.values.now.len()
            == context.ir.values.now.len(),
        inserted_before(context, block, op, list, n).types == context.types,
    decreases n,
{
    if n > 0 {
        inserting_mints_by_count(context, block, op, list, n - 1);
        let here = inserted_before(context, block, op, list, n - 1);
        adding_keeps_blocks(here, list[n - 1]);
        inserting_keeps_position(here, block, op, list[n - 1]);
    }
}

/// Stores every instruction of `list` just before `op`, in order.
pub fn insert_all_before(
    context: &mut Context,
    block: BlockId,
    op: OpId,
    list: Vec<Instruction>,
) -> (r: Result<(), PassError>)
    requires
        old(context).inv(),
        old(context)@.has_room(list@.len() as int),
        all_wf(instruction_views(list@)),
    ensures
        final(context).inv(),
        keeps(old(context)@, final(context)@),
        list@.len() == 0 || old(context)@.position_in(block, op) is Some ==> r is Ok
            && final(context)@ == inserted_before(
            old(context)@,
            block,
            op,
            instruction_views(list@),
            list@.len() as int,
        ),
        list@.len() > 0 && old(context)@.position_in(block, op) is None ==> fails(
            r,
            PassErrorView::RewriteFailed(op),
        ),
{
    let ghost before = context@;
    let ghost all = list@;
    let ghost views = instruction_views(list@);
    let mut rest = list;
    let ghost mut done: int = 0;
    assert(rest@ =~= all.skip(0));
    while rest.len() > 0
        invariant
            context.inv(),
            before == old(context)@,
            keeps(before, context@),
            all == list@,
            views == instruction_views(all),
            all_wf(views),
            before.has_room(all.len() as int),
            0 <= done <= all.len(),
            rest@ =~= all.skip(done),
            done > 0 ==> before.position_in(block, op) is Some,
            context@ == inserted_before(before, block, op, views, done),
        decreases rest.len(),
    {
        let instruction = rest.remove(0);
        proof {
            assert(instruction == all[done]);
            assert(views[done] == instruction@);
            if before.position_in(block, op) is Some {
                inserting_mints_by_count(before, block, op, views, done);
            }
        }
        match insert_before(context, block, op, instruction) {
            Ok(_id) => {},
            Err(e) => {
                return Err(e);
            },
        }
        proof {
            done = done + 1;
        }
    }
    Ok(())
}

/// One instruction that names the address of a stack allocation.
pub ghost struct AddressUse {
    pub block: BlockId,
    pub op: OpId,
    pub at: Seq<usize>,
    pub class: ClassView,
    pub offset: i64,
}

/// Why an address cannot be recomputed before an instruction.
pub open spec fn address_failure<T: TargetRegAlloc>(
    target: T,
    context: ContextView,
    frame: RegView,
    used: AddressUse,
) -> Option<PassErrorView> {
    match target.frame_address(context.next_value(), used.class, frame, used.offset) {
        Err(e) => Some(e),
        Ok(list) => if list.len() > 0 && context.position_in(used.block, used.op) is None {
            Some(PassErrorView::RewriteFailed(used.op))
        } else {
            None
        },
    }
}

/// With an address recomputed into a fresh register just before an instruction,
/// and the instruction reading it from there.
#[verifier::opaque]
pub open spec fn recomputed_at<T: TargetRegAlloc>(
    target: T,
    context: ContextView,
    frame: RegView,
    used: AddressUse,
) -> ContextView {
    let fresh = context.next_value();
    let list = target.frame_address(fresh, used.class, frame, used.offset)->Ok_0;
    operands_set(
        inserted_before(
            context.with_fresh(used.class),
            used.block,
            used.op,
            list,
            list.len() as int,
        ),
        used.op,
        used.at,
        used.at.len() as int,
        fresh,
    )
}

/// Whether ids do not run out while an address is recomputed.
pub open spec fn address_fits<T: TargetRegAlloc>(
    target: T,
    context: ContextView,
    frame: RegView,
    used: AddressUse,
) -> bool {
    context.has_room(1) && match target.frame_address(
        context.next_value(),
        used.class,
        frame,
        used.offset,
    ) {
        Ok(list) => context.has_room(1 + list.len() as int),
        Err(_) => true,
    }
}

fn recompute<T: TargetRegAlloc>(
    target: &T,
    context: &mut Context,
    frame: &PhysReg,
    block: BlockId,
    op: OpId,
    at: &Vec<usize>,
    class: RegClassId,
    offset: i64,
) -> (r: Result<ValueId, PassError>)
    requires
        old(context).inv(),
        address_fits(
            *target,
            old(context)@,
            reg_view(*frame),
            AddressUse { block, op, at: at@, class: class@, offset },
        ),
    ensures
        final(context).inv(),
        keeps(old(context)@, final(context)@),
        ({
            let used = AddressUse { block, op, at: at@, class: class@, offset };
            match address_failure(*target, old(context)@, reg_view(*frame), used) {
                Some(e) => fails(r, e),
                None => r is Ok && r->Ok_0 == old(context)@.next_value() && final(context)@
                    == recomputed_at(*target, old(context)@, reg_view(*frame), used),
            }
        }),
{
    reveal(recomputed_at);
    let ghost before = context@;
    let fresh = fresh_reg(context, class);
    let ghost minted = context@;
    let list = match target.emit_frame_address(fresh, class, frame, offset) {
        Ok(list) => list,
        Err(e) => {
            return Err(e);
        },
    };
    match insert_all_before(context, block, op, list) {
        Ok(_) => {},
        Err(e) => {
            return Err(e);
        },
    }
    set_operands(context, op, at, fresh);
    Ok(fresh)
}

/// What recomputing addresses changes: the IR, and the fresh registers that
/// must not be spilled.
pub ghost struct RematState {
    pub context: ContextView,
    pub temps: Seq<u32>,
}

/// After the first `n` of `uses` were given their own address.
pub open spec fn recomputed<T: TargetRegAlloc>(
    target: T,
    state: RematState,
    frame: RegView,
    uses: Seq<AddressUse>,
    n: int,
) -> RematState
    decreases n,
{
    if n <= 0 {
        state
    } else {
        let before = recomputed(target, state, frame, uses, n - 1);
        RematState {
            context: recomputed_at(target, before.context, frame, uses[n - 1]),
            temps: before.temps.push(before.context.next_value().0),
        }
    }
}

/// Why the first of the first `n` of `uses` that cannot be given an address
/// cannot.
pub open spec fn recompute_failure<T: TargetRegAlloc>(
    target: T,
    state: RematState,
    frame: RegView,
    uses: Seq<AddressUse>,
    n: int,
) -> Option<PassErrorView>
    decreases n,
{
    if n <= 0 {
        None
    } else {
        match recompute_failure(target, state, frame, uses, n - 1) {
            Some(e) => Some(e),
            None => address_failure(
                target,
                recomputed(target, state, frame, uses, n - 1).context,
                frame,
                uses[n - 1],
            ),
        }
    }
}

/// Whether ids do not run out while the first `n` of `uses` are given an
/// address.
pub open spec fn recompute_fits<T: TargetRegAlloc>(
    target: T,
    state: RematState,
    frame: RegView,
    uses: Seq<AddressUse>,
    n: int,
) -> bool
    decreases n,
{
    n > 0 ==> {
        &&& recompute_fits(target, state, frame, uses, n - 1)
        &&& address_fits(
            target,
            recomputed(target, state, frame, uses, n - 1).context,
            frame,
            uses[n - 1],
        )
    }
}

proof fn recompute_failure_stays<T: TargetRegAlloc>(
    target: T,
    state: RematState,
    frame: RegView,
    uses: Seq<AddressUse>,
    n: int,
    m: int,
)
    requires
        0 < n <= m,
        recompute_failure(target, state, frame, uses, n) is Some,
    ensures
        recompute_failure(target, state, frame, uses, m) == recompute_failure(
            target,
            state,
            frame,
            uses,
            n,
        ),
    decreases m - n,
{
    if n < m {
        recompute_failure_stays(target, state, frame, uses, n, m - 1);
    }
}

proof fn recompute_fits_before<T: TargetRegAlloc>(
    target: T,
    state: RematState,
    frame: RegView,
    uses: Seq<AddressUse>,
    n: int,
    m: int,
)
    requires
        0 <= n <= m,
        recompute_fits(target, state, frame, uses, m),
    ensures
        recompute_fits(target, state, frame, uses, n),
    decreases m - n,
{
    if n < m {
        recompute_fits_before(target, state, frame, uses, n, m - 1);
    }
}

/// The class an allocation's address is held in.
pub open spec fn address_class(
    context: ContextView,
    machine: Machine,
    abi: AbiInfo,
    blocks: Seq<BlockId>,
    value: ValueId,
) -> Option<ClassView> {
    match class_read_through(context, machine, blocks, value) {
        Some(class) => Some(class),
        None => match default_class_of(abi, ValueKind::Int) {
            Some(class) => Some(class@),
            None => None,
        },
    }
}

/// Why the first of the first `n` of `allocas` whose address no class holds
/// fails.
pub open spec fn class_failure(
    context: ContextView,
    machine: Machine,
    abi: AbiInfo,
    blocks: Seq<BlockId>,
    allocas: Seq<StackAlloca>,
    n: int,
) -> Option<PassErrorView>
    decreases n,
{
    if n <= 0 {
        None
    } else {
        match class_failure(context, machine, abi, blocks, allocas, n - 1) {
            Some(e) => Some(e),
            None => if address_class(
                context,
                machine,
                abi,
                blocks,
                allocas[n - 1].value,
            ) is None {
                Some(
                    PassErrorView::InvalidRuleSet(
                        "stack allocation %"@ + decimal(allocas[n - 1].value.0 as nat)
                            + " has no register class"@,
                    ),
                )
            } else {
                None
            },
        }
    }
}

proof fn class_failure_stays(
    context: ContextView,
    machine: Machine,
    abi: AbiInfo,
    blocks: Seq<BlockId>,
    allocas: Seq<StackAlloca>,
    n: int,
    m: int,
)
    requires
        0 < n <= m,
        class_failure(context, machine, abi, blocks, allocas, n) is Some,
    ensures
        class_failure(context, machine, abi, blocks, allocas, m) == class_failure(
            context,
            machine,
            abi,
            blocks,
            allocas,
            n,
        ),
    decreases m - n,
{
    if n < m {
        class_failure_stays(context, machine, abi, blocks, allocas, n, m - 1);
    }
}

/// The uses one instruction makes of the first `n` of `allocas`, each with the
/// class its address is held in.
pub open spec fn uses_in(
    context: ContextView,
    block: BlockId,
    op: OpId,
    allocas: Seq<StackAlloca>,
    classes: Seq<ClassView>,
    n: int,
) -> Seq<AddressUse>
    decreases n,
{
    if n <= 0 {
        Seq::empty()
    } else {
        let before = uses_in(context, block, op, allocas, classes, n - 1);
        let alloca = allocas[n - 1];
        let at = context.uses_at(op, alloca.value);
        if op != alloca.op_id && at.len() > 0 {
            before.push(
                AddressUse { block, op, at, class: classes[n - 1], offset: alloca.offset },
            )
        } else {
            before
        }
    }
}

/// Every use the first `n` of `list` make of `allocas`.
pub open spec fn address_uses(
    context: ContextView,
    list: Seq<(BlockId, OpId)>,
    allocas: Seq<StackAlloca>,
    classes: Seq<ClassView>,
    n: int,
) -> Seq<AddressUse>
    decreases n,
{
    if n <= 0 {
        Seq::empty()
    } else {
        address_uses(context, list, allocas, classes, n - 1) + uses_in(
            context,
            list[n - 1].0,
            list[n - 1].1,
            allocas,
            classes,
            allocas.len() as int,
        )
    }
}

/// The classes the addresses of `allocas` are held in.
pub open spec fn address_classes(
    context: ContextView,
    machine: Machine,
    abi: AbiInfo,
    blocks: Seq<BlockId>,
    allocas: Seq<StackAlloca>,
) -> Seq<ClassView> {
    Seq::new(
        allocas.len(),
        |i: int| address_class(context, machine, abi, blocks, allocas[i].value)->0,
    )
}

struct AddressSite {
    block: BlockId,
    op: OpId,
    at: Vec<usize>,
    class: RegClassId,
    offset: i64,
}

impl View for AddressSite {
    type V = AddressUse;

    closed spec fn view(&self) -> AddressUse {
        AddressUse {
            block: self.block,
            op: self.op,
            at: self.at@,
            class: self.class@,
            offset: self.offset,
        }
    }
}

spec fn use_views(list: Seq<AddressSite>) -> Seq<AddressUse> {
    list.map_values(|s: AddressSite| s@)
}

spec fn class_views(list: Seq<RegClassId>) -> Seq<ClassView> {
    list.map_values(|c: RegClassId| c@)
}

fn class_for_addresses(
    context: &Context,
    machine: &Machine,
    abi: &AbiInfo,
    default_class: Option<RegClassId>,
    blocks: &Vec<BlockId>,
    allocas: &Vec<StackAlloca>,
) -> (r: Result<Vec<RegClassId>, PassError>)
    requires
        context.inv(),
        context@.sound(),
        context@.blocks_live(blocks@),
        default_class == default_class_of(*abi, ValueKind::Int),
    ensures
        match class_failure(
            context@,
            *machine,
            *abi,
            blocks@,
            allocas@,
            allocas@.len() as int,
        ) {
            Some(e) => fails(r, e),
            None => r is Ok && class_views(r->Ok_0@) == address_classes(
                context@,
                *machine,
                *abi,
                blocks@,
                allocas@,
            ),
        },
{
    let mut r: Vec<RegClassId> = Vec::new();
    let mut i: usize = 0;
    while i < allocas.len()
        invariant
            context.inv(),
            context@.sound(),
            context@.blocks_live(blocks@),
            default_class == default_class_of(*abi, ValueKind::Int),
            i <= allocas.len(),
            r.len() == i,
            class_failure(context@, *machine, *abi, blocks@, allocas@, i as int) is None,
            forall|k: int|
                0 <= k < i ==> address_class(
                    context@,
                    *machine,
                    *abi,
                    blocks@,
                    allocas@[k].value,
                ) == Some((#[trigger] r@[k])@),
        decreases allocas.len() - i,
    {
        let value = allocas[i].value;
        let class = match slot_class_of(context, machine, blocks, value) {
            Some(class) => class,
            None => match default_class {
                Some(class) => class,
                None => {
                    proof {
                        class_failure_stays(
                            context@,
                            *machine,
                            *abi,
                            blocks@,
                            allocas@,
                            i + 1,
                            allocas@.len() as int,
                        );
                    }
                    let message = cat3(
                        "stack allocation %",
                        decimal_string(value.0 as u64).as_str(),
                        " has no register class",
                    );
                    return Err(PassError::InvalidRuleSet(message));
                },
            },
        };
        r.push(class);
        i += 1;
    }
    assert(class_views(r@) =~= address_classes(context@, *machine, *abi, blocks@, allocas@)) by {
        assert forall|k: int| 0 <= k < allocas@.len() implies class_views(r@)[k]
            == address_classes(context@, *machine, *abi, blocks@, allocas@)[k] by {
            assert(class_views(r@)[k] == r@[k]@);
        }
    }
    Ok(r)
}

fn address_sites(
    context: &Context,
    list: &Vec<(BlockId, OpId)>,
    allocas: &Vec<StackAlloca>,
    classes: &Vec<RegClassId>,
) -> (r: Vec<AddressSite>)
    requires
        context.inv(),
        listed_live(context@, list@),
        classes@.len() == allocas@.len(),
    ensures
        use_views(r@) == address_uses(
            context@,
            list@,
            allocas@,
            class_views(classes@),
            list@.len() as int,
        ),
{
    let ghost cv = class_views(classes@);
    let mut r: Vec<AddressSite> = Vec::new();
    let mut i: usize = 0;
    assert(use_views(r@) =~= Seq::empty());
    while i < list.len()
        invariant
            context.inv(),
            listed_live(context@, list@),
            classes@.len() == allocas@.len(),
            cv == class_views(classes@),
            i <= list.len(),
            use_views(r@) =~= address_uses(context@, list@, allocas@, cv, i as int),
        decreases list.len() - i,
    {
        let (block, op) = list[i];
        assert(context@.ir.op(list@[i as int].1) is Some);
        let ghost before = use_views(r@);
        let mut k: usize = 0;
        while k < allocas.len()
            invariant
                context.inv(),
                context@.ir.op(op) is Some,
                classes@.len() == allocas@.len(),
                cv == class_views(classes@),
                k <= allocas.len(),
                use_views(r@) =~= before + uses_in(
                    context@,
                    block,
                    op,
                    allocas@,
                    cv,
                    k as int,
                ),
            decreases allocas.len() - k,
        {
            let alloca = allocas[k];
            let ghost held = use_views(r@);
            let at = positions(context.operands_of(op), alloca.value);
            if op != alloca.op_id && at.len() > 0 {
                let site = AddressSite { block, op, at, class: classes[k], offset: alloca.offset };
                let ghost view = site@;
                assert(cv[k as int] == classes@[k as int]@);
                r.push(site);
                assert(use_views(r@) =~= held.push(view));
            }
            k += 1;
        }
        i += 1;
    }
    r
}

/// Replaces every use of an `alloca` result with a frame address computed
/// immediately before that use. Recomputing keeps each address live for a
/// single instruction instead of spanning the whole function, which is what
/// lets bodies with many address-taken locals allocate at all: an alloca value
/// cannot be spilled (nothing would write the slot), so a long-lived one pins a
/// register forever.
pub fn rematerialize_stack_allocas<T: TargetRegAlloc>(
    target: &T,
    abi: &AbiInfo,
    context: &mut Context,
    machine: &Machine,
    blocks: &Vec<BlockId>,
    list: &Vec<(BlockId, OpId)>,
    allocas: &Vec<StackAlloca>,
    frame: &mut FramePlan,
) -> (r: Result<(), PassError>)
    requires
        old(context).inv(),
        old(context)@.sound(),
        old(context)@.blocks_live(blocks@),
        listed_live(old(context)@, list@),
        ({
            let uses = address_uses(
                old(context)@,
                list@,
                allocas@,
                address_classes(old(context)@, *machine, *abi, blocks@, allocas@),
                list@.len() as int,
            );
            recompute_fits(
                *target,
                RematState { context: old(context)@, temps: old(frame).temps@ },
                reg_view(abi.sp),
                uses,
                uses.len() as int,
            )
        }),
    ensures
        final(context).inv(),
        keeps(old(context)@, final(context)@),
        ({
            let uses = address_uses(
                old(context)@,
                list@,
                allocas@,
                address_classes(old(context)@, *machine, *abi, blocks@, allocas@),
                list@.len() as int,
            );
            let n = uses.len() as int;
            let state = RematState { context: old(context)@, temps: old(frame).temps@ };
            match class_failure(
                old(context)@,
                *machine,
                *abi,
                blocks@,
                allocas@,
                allocas@.len() as int,
            ) {
                Some(e) => fails(r, e),
                None => match recompute_failure(*target, state, reg_view(abi.sp), uses, n) {
                    Some(e) => fails(r, e),
                    None => r is Ok && recomputed(*target, state, reg_view(abi.sp), uses, n) == (
                    RematState { context: final(context)@, temps: final(frame).temps@ }),
                },
            }
        }),
        final(frame).align == old(frame).align,
        final(frame).slot_size == old(frame).slot_size,
        final(frame).save_style == old(frame).save_style,
        final(frame).rounds == old(frame).rounds,
        final(frame).next_offset == old(frame).next_offset,
{
    let default_class = target.register_info().default_integer_class(abi);
    let classes = match class_for_addresses(
        context,
        machine,
        abi,
        default_class,
        blocks,
        allocas,
    ) {
        Ok(classes) => classes,
        Err(e) => {
            return Err(e);
        },
    };
    assert(classes@.len() == allocas@.len()) by {
        assert(class_views(classes@).len() == allocas@.len());
    }
    let sites = address_sites(context, list, allocas, &classes);
    let ghost uses = use_views(sites@);
    let ghost state = RematState { context: context@, temps: frame.temps@ };
    let ghost at = reg_view(abi.sp);
    let ghost shape = *frame;
    let mut i: usize = 0;
    while i < sites.len()
        invariant
            i <= sites.len(),
            context.inv(),
            keeps(old(context)@, context@),
            uses == use_views(sites@),
            uses == address_uses(
                old(context)@,
                list@,
                allocas@,
                address_classes(old(context)@, *machine, *abi, blocks@, allocas@),
                list@.len() as int,
            ),
            class_failure(
                old(context)@,
                *machine,
                *abi,
                blocks@,
                allocas@,
                allocas@.len() as int,
            ) is None,
            state == (RematState { context: old(context)@, temps: old(frame).temps@ }),
            at == reg_view(abi.sp),
            shape == *old(frame),
            frame.align == shape.align,
            frame.slot_size == shape.slot_size,
            frame.save_style == shape.save_style,
            frame.rounds == shape.rounds,
            frame.next_offset == shape.next_offset,
            recompute_fits(*target, state, at, uses, uses.len() as int),
            recompute_failure(*target, state, at, uses, i as int) is None,
            recomputed(*target, state, at, uses, i as int) == (RematState {
                context: context@,
                temps: frame.temps@,
            }),
        decreases sites.len() - i,
    {
        assert(uses[i as int] == sites@[i as int]@);
        proof {
            recompute_fits_before(*target, state, at, uses, i + 1, uses.len() as int);
        }
        match recompute(
            target,
            context,
            &abi.sp,
            sites[i].block,
            sites[i].op,
            &sites[i].at,
            sites[i].class,
            sites[i].offset,
        ) {
            Ok(fresh) => {
                frame.temps.push(fresh.0);
            },
            Err(e) => {
                proof {
                    recompute_failure_stays(*target, state, at, uses, i + 1, uses.len() as int);
                }
                return Err(e);
            },
        }
        i += 1;
    }
    Ok(())
}

/// Whether `after` is `before` with `op` taken out of `block`, where it holds
/// it, and with everything the operation owns gone.
pub open spec fn erased_from(
    before: ContextView,
    after: ContextView,
    block: BlockId,
    op: OpId,
) -> bool {
    let detached = match before.position_in(block, op) {
        Some(at) => before.with_op_removed(block, at, op),
        None => before,
    };
    after == detached.with_ir(after.ir) && reclaimed(
        detached.ir,
        after.ir,
        seq![op],
        Seq::empty(),
    )
}

/// Takes `op` out of `block` and erases it with everything it owns.
pub fn erase_op(context: &mut Context, block: BlockId, op: OpId)
    requires
        old(context).inv(),
    ensures
        final(context).inv(),
        erased_from(old(context)@, final(context)@, block, op),
{
    let _ = context.remove_op_from_block(block, op);
    context.remove_operation(op);
}

/// One step of erasing stack allocations: one that is still there goes.
pub open spec fn alloca_erased(before: ContextView, after: ContextView, alloca: StackAlloca) -> bool {
    if before.ir.op(alloca.op_id) is Some {
        erased_from(before, after, alloca.block, alloca.op_id)
    } else {
        after == before
    }
}

/// Erases the stack allocations of a function, whose addresses nothing reads
/// any more. They go before allocation: a definition the function still holds
/// is a live range the allocator may pick to spill, and the spill code it would
/// write names a value this erasure retires.
pub fn erase_stack_allocas(context: &mut Context, allocas: &Vec<StackAlloca>)
    requires
        old(context).inv(),
    ensures
        final(context).inv(),
        exists|steps: Seq<ContextView>|
            #![trigger steps.len()]
            steps.len() == allocas@.len() + 1 && steps[0] == old(context)@ && steps.last()
                == final(context)@ && forall|i: int|
                0 <= i < allocas@.len() ==> alloca_erased(
                    steps[i],
                    steps[i + 1],
                    #[trigger] allocas@[i],
                ),
{
    let ghost mut steps: Seq<ContextView> = seq![context@];
    let mut i: usize = 0;
    while i < allocas.len()
        invariant
            i <= allocas.len(),
            context.inv(),
            steps.len() == i + 1,
            steps[0] == old(context)@,
            steps.last() == context@,
            forall|k: int|
                0 <= k < i ==> alloca_erased(steps[k], steps[k + 1], #[trigger] allocas@[k]),
        decreases allocas.len() - i,
    {
        let alloca = allocas[i];
        let ghost before = context@;
        if context.has_operation(alloca.op_id) {
            erase_op(context, alloca.block, alloca.op_id);
        }
        proof {
            let held = steps;
            steps = steps.push(context@);
            assert forall|k: int| 0 <= k < i + 1 implies alloca_erased(
                steps[k],
                steps[k + 1],
                #[trigger] allocas@[k],
            ) by {
                if k < i {
                    assert(steps[k] == held[k] && steps[k + 1] == held[k + 1]);
                }
            }
        }
        i += 1;
    }
    assert(steps.len() == allocas@.len() + 1);
}

} // verus!

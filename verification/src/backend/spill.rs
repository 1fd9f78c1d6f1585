//! Spill code: a virtual register that stays in a stack slot is loaded before
//! each instruction that reads it and stored after each that writes it.
use vstd::prelude::*;
use crate::backend::abi::default_class_of;
use crate::backend::abi::AbiInfo;
use crate::backend::abi::ValueKind;
use crate::backend::classes::ClassView;
use crate::backend::classes::PhysReg;
use crate::backend::classes::RegClassId;
use crate::backend::frame::placed_at;
use crate::backend::frame::FramePlan;
use crate::backend::instructions::adding_keeps_blocks;
use crate::backend::instructions::fails;
use crate::backend::instructions::insert_after;
use crate::backend::instructions::insert_before;
use crate::backend::instructions::PassError;
use crate::backend::instructions::PassErrorView;
use crate::backend::regalloc::Liveness;
use crate::backend::registers::fresh_reg;
use crate::backend::tables::entry;
use crate::backend::tables::get_entry;
use crate::backend::target::reg_view;
use crate::backend::target::RegView;
use crate::backend::target::TargetRegAlloc;
use crate::context::kept::keeps;
use crate::context::kept::keeps_through;
use crate::context::kept::operand_keeps_sound;
use crate::context::kept::result_keeps_sound;
use crate::context::Context;
use crate::context::ContextView;
use crate::ids::BlockId;
use crate::ids::OpId;
use crate::ids::ValueId;
use crate::ir::copy_list;
use crate::text::cat3;
use crate::text::decimal;
use crate::text::decimal_string;

verus! {

/// The positions below `n` at which `list` holds `value`.
pub open spec fn positions_of(list: Seq<ValueId>, value: ValueId, n: int) -> Seq<usize>
    decreases n,
{
    if n <= 0 {
        Seq::empty()
    } else {
        let before = positions_of(list, value, n - 1);
        if list[n - 1] == value {
            before.push((n - 1) as usize)
        } else {
            before
        }
    }
}

/// The positions at which `list` holds `value`.
pub fn positions(list: &Vec<ValueId>, value: ValueId) -> (r: Vec<usize>)
    ensures
        r@ == positions_of(list@, value, list@.len() as int),
{
    let mut r: Vec<usize> = Vec::new();
    let mut i: usize = 0;
    while i < list.len()
        invariant
            i <= list.len(),
            r@ =~= positions_of(list@, value, i as int),
        decreases list.len() - i,
    {
        if list[i] == value {
            r.push(i);
        }
        i += 1;
    }
    r
}

/// With the operands of `op` at the first `n` of `at` reading `new`.
pub open spec fn operands_set(
    context: ContextView,
    op: OpId,
    at: Seq<usize>,
    n: int,
    new: ValueId,
) -> ContextView
    decreases n,
{
    if n <= 0 {
        context
    } else {
        operands_set(context, op, at, n - 1, new).with_operand(op, at[n - 1] as int, new)
    }
}

/// With the results of `op` at the first `n` of `at` being `new`.
pub open spec fn results_set(
    context: ContextView,
    op: OpId,
    at: Seq<usize>,
    n: int,
    new: ValueId,
) -> ContextView
    decreases n,
{
    if n <= 0 {
        context
    } else {
        results_set(context, op, at, n - 1, new).with_result(op, at[n - 1] as int, new)
    }
}

/// How much larger a context may have become: `ops` operations and names, and
/// `values` values and types.
pub open spec fn grown_by(before: ContextView, after: ContextView, ops: int, values: int) -> bool {
    &&& after.ir.ops.now.len() <= before.ir.ops.now.len() + ops
    &&& after.names.len() <= before.names.len() + ops
    &&& after.ir.values.now.len() == before.ir.values.now.len() + values
    &&& after.types.len() <= before.types.len() + values
}

/// Setting operands changes no block and mints nothing.
pub proof fn setting_operands_mints_nothing(
    context: ContextView,
    op: OpId,
    at: Seq<usize>,
    n: int,
    new: ValueId,
)
    ensures
        operands_set(context, op, at, n, new).ir.blocks == context.ir.blocks,
        operands_set(context, op, at, n, new).names == context.names,
        operands_set(context, op, at, n, new).types == context.types,
        operands_set(context, op, at, n, new).ir.values == context.ir.values,
        operands_set(context, op, at, n, new).ir.ops.now.len() == context.ir.ops.now.len(),
        (operands_set(context, op, at, n, new).ir.op(op) is Some) == (context.ir.op(op) is Some),
        context.ir.op(op) is Some ==> operands_set(context, op, at, n, new).ir.op(op)->0.results
            == context.ir.op(op)->0.results,
    decreases n,
{
    if n > 0 {
        setting_operands_mints_nothing(context, op, at, n - 1, new);
    }
}

/// Setting results changes no block and mints nothing.
pub proof fn setting_results_mints_nothing(
    context: ContextView,
    op: OpId,
    at: Seq<usize>,
    n: int,
    new: ValueId,
)
    ensures
        results_set(context, op, at, n, new).ir.blocks == context.ir.blocks,
        results_set(context, op, at, n, new).names == context.names,
        results_set(context, op, at, n, new).types == context.types,
        results_set(context, op, at, n, new).ir.values.now.len() == context.ir.values.now.len(),
        results_set(context, op, at, n, new).ir.ops.now.len() == context.ir.ops.now.len(),
    decreases n,
{
    if n > 0 {
        setting_results_mints_nothing(context, op, at, n - 1, new);
    }
}

/// Points the operands of `op` at `at` to `new`.
pub fn set_operands(context: &mut Context, op: OpId, at: &Vec<usize>, new: ValueId)
    requires
        old(context).inv(),
        new.0 < u32::MAX,
    ensures
        final(context).inv(),
        keeps(old(context)@, final(context)@),
        final(context)@ == operands_set(old(context)@, op, at@, at@.len() as int, new),
{
    let ghost before = context@;
    let mut i: usize = 0;
    while i < at.len()
        invariant
            i <= at.len(),
            context.inv(),
            before == old(context)@,
            keeps(before, context@),
            new.0 < u32::MAX,
            context@ == operands_set(before, op, at@, i as int, new),
        decreases at.len() - i,
    {
        let ghost here = context@;
        context.set_op_operand(op, at[i], new);
        proof {
            operand_keeps_sound(here, op, at@[i as int] as int, new);
            keeps_through(before, here, context@);
        }
        i += 1;
    }
}

/// Makes `new` the results of `op` at `at`.
pub fn set_results(context: &mut Context, op: OpId, at: &Vec<usize>, new: ValueId)
    requires
        old(context).inv(),
    ensures
        final(context).inv(),
        keeps(old(context)@, final(context)@),
        final(context)@ == results_set(old(context)@, op, at@, at@.len() as int, new),
{
    let ghost before = context@;
    let mut i: usize = 0;
    while i < at.len()
        invariant
            i <= at.len(),
            context.inv(),
            before == old(context)@,
            keeps(before, context@),
            context@ == results_set(before, op, at@, i as int, new),
        decreases at.len() - i,
    {
        let ghost here = context@;
        context.set_op_result(op, at[i], new);
        proof {
            result_keeps_sound(here, op, at@[i as int] as int, new);
            keeps_through(before, here, context@);
        }
        i += 1;
    }
}

/// Where a spilled value lives.
pub ghost struct Home {
    pub spilled: ValueId,
    pub class: ClassView,
    pub frame: RegView,
    pub offset: i64,
}

impl ContextView {
    /// The operand positions of `op` that read `value`.
    pub open spec fn uses_at(self, op: OpId, value: ValueId) -> Seq<usize> {
        let operands = self.ir.op(op)->0.operands;
        positions_of(operands, value, operands.len() as int)
    }

    /// The result positions of `op` that write `value`.
    pub open spec fn defines_at(self, op: OpId, value: ValueId) -> Seq<usize> {
        let results = self.ir.op(op)->0.results;
        positions_of(results, value, results.len() as int)
    }
}

/// With one instruction reading and writing a fresh register in place of a
/// spilled one, the load before it in place. A read-modify-write occurrence
/// keeps the read and the write in one register: one fresh register serves both.
#[verifier::opaque]
pub open spec fn reloaded_at<T: TargetRegAlloc>(
    target: T,
    context: ContextView,
    block: BlockId,
    op: OpId,
    home: Home,
) -> ContextView {
    let fresh = context.next_value();
    let uses = context.uses_at(op, home.spilled);
    let defines = context.defines_at(op, home.spilled);
    let minted = context.with_fresh(home.class);
    let loaded = if uses.len() > 0 {
        minted.with_instruction_before(
            block,
            op,
            target.spill_reload(fresh, home.class, home.frame, home.offset),
        )
    } else {
        minted
    };
    results_set(
        operands_set(loaded, op, uses, uses.len() as int, fresh),
        op,
        defines,
        defines.len() as int,
        fresh,
    )
}

/// With one instruction spilled: the load before it, and the store after it.
#[verifier::opaque]
pub open spec fn spilled_at<T: TargetRegAlloc>(
    target: T,
    context: ContextView,
    block: BlockId,
    op: OpId,
    home: Home,
) -> ContextView {
    let renamed = reloaded_at(target, context, block, op, home);
    if context.defines_at(op, home.spilled).len() > 0 {
        renamed.with_instruction_after(
            block,
            op,
            target.spill_store(context.next_value(), home.class, home.frame, home.offset),
        )
    } else {
        renamed
    }
}

/// Why one instruction cannot be spilled: the block does not hold it.
#[verifier::opaque]
pub open spec fn site_failure<T: TargetRegAlloc>(
    target: T,
    context: ContextView,
    block: BlockId,
    op: OpId,
    home: Home,
) -> Option<PassErrorView> {
    let reads = context.uses_at(op, home.spilled).len() > 0;
    let writes = context.defines_at(op, home.spilled).len() > 0;
    if (reads && context.position_in(block, op) is None) || (writes && reloaded_at(
        target,
        context,
        block,
        op,
        home,
    ).position_in(block, op) is None) {
        Some(PassErrorView::RewriteFailed(op))
    } else {
        None
    }
}

/// Spilling one instruction mints one value and at most two operations.
pub proof fn spilling_mints_little<T: TargetRegAlloc>(
    target: T,
    context: ContextView,
    block: BlockId,
    op: OpId,
    home: Home,
)
    ensures
        grown_by(context, spilled_at(target, context, block, op, home), 2, 1),
{
    reveal(reloaded_at);
    reveal(spilled_at);
    let fresh = context.next_value();
    let uses = context.uses_at(op, home.spilled);
    let defines = context.defines_at(op, home.spilled);
    let minted = context.with_fresh(home.class);
    let reload = target.spill_reload(fresh, home.class, home.frame, home.offset);
    let loaded = if uses.len() > 0 {
        minted.with_instruction_before(block, op, reload)
    } else {
        minted
    };
    adding_keeps_blocks(minted, reload);
    setting_operands_mints_nothing(loaded, op, uses, uses.len() as int, fresh);
    let read = operands_set(loaded, op, uses, uses.len() as int, fresh);
    setting_results_mints_nothing(read, op, defines, defines.len() as int, fresh);
    let renamed = reloaded_at(target, context, block, op, home);
    adding_keeps_blocks(
        renamed,
        target.spill_store(fresh, home.class, home.frame, home.offset),
    );
}

/// Spills one instruction.
fn spill_site<T: TargetRegAlloc>(
    target: &T,
    context: &mut Context,
    block: BlockId,
    op: OpId,
    spilled: ValueId,
    class: RegClassId,
    frame: &PhysReg,
    offset: i64,
) -> (r: Result<ValueId, PassError>)
    requires
        old(context).inv(),
        old(context)@.has_room(2),
        old(context)@.ir.op(op) is Some,
    ensures
        final(context).inv(),
        keeps(old(context)@, final(context)@),
        ({
            let home = Home { spilled, class: class@, frame: reg_view(*frame), offset };
            match site_failure(*target, old(context)@, block, op, home) {
                Some(e) => fails(r, e),
                None => r is Ok && r->Ok_0 == old(context)@.next_value() && final(context)@
                    == spilled_at(*target, old(context)@, block, op, home),
            }
        }),
{
    reveal(reloaded_at);
    reveal(spilled_at);
    reveal(site_failure);
    let ghost home = Home { spilled, class: class@, frame: reg_view(*frame), offset };
    let ghost before = context@;
    let uses = positions(context.operands_of(op), spilled);
    let defines = positions(context.results_of(op), spilled);
    let fresh = fresh_reg(context, class);
    let ghost minted = context@;
    if uses.len() > 0 {
        let reload = target.emit_spill_reload(fresh, class, frame, offset);
        proof {
            adding_keeps_blocks(minted, reload@);
        }
        match insert_before(context, block, op, reload) {
            Ok(_id) => {},
            Err(e) => {
                return Err(e);
            },
        }
    }
    let ghost loaded = context@;
    set_operands(context, op, &uses, fresh);
    proof {
        setting_operands_mints_nothing(loaded, op, uses@, uses@.len() as int, fresh);
    }
    let ghost read = context@;
    set_results(context, op, &defines, fresh);
    proof {
        setting_results_mints_nothing(read, op, defines@, defines@.len() as int, fresh);
    }
    if defines.len() > 0 {
        let store = target.emit_spill_store(fresh, class, frame, offset);
        match insert_after(context, block, op, store) {
            Ok(_id) => {},
            Err(e) => {
                return Err(e);
            },
        }
    }
    Ok(fresh)
}

/// The operations of `ops` that are live and name `value`, each with the block
/// that holds it, of the first `n`.
pub open spec fn sites_in(
    context: ContextView,
    block: BlockId,
    ops: Seq<OpId>,
    value: ValueId,
    n: int,
) -> Seq<(BlockId, OpId)>
    decreases n,
{
    if n <= 0 {
        Seq::empty()
    } else {
        let before = sites_in(context, block, ops, value, n - 1);
        let op = ops[n - 1];
        if context.ir.op(op) is Some && (context.uses_at(op, value).len() > 0
            || context.defines_at(op, value).len() > 0) {
            before.push((block, op))
        } else {
            before
        }
    }
}

/// The operations of the first `n` of `blocks` that name `value`, in order.
pub open spec fn sites_of(
    context: ContextView,
    blocks: Seq<BlockId>,
    value: ValueId,
    n: int,
) -> Seq<(BlockId, OpId)>
    decreases n,
{
    if n <= 0 {
        Seq::empty()
    } else {
        let ops = match context.ir.block(blocks[n - 1]) {
            Some(b) => b.operations,
            None => Seq::empty(),
        };
        sites_of(context, blocks, value, n - 1) + sites_in(
            context,
            blocks[n - 1],
            ops,
            value,
            ops.len() as int,
        )
    }
}

fn spill_sites(context: &Context, blocks: &Vec<BlockId>, value: ValueId) -> (r: Vec<
    (BlockId, OpId),
>)
    requires
        context.inv(),
    ensures
        r@ == sites_of(context@, blocks@, value, blocks@.len() as int),
        forall|k: int| 0 <= k < r@.len() ==> context@.ir.op((#[trigger] r@[k]).1) is Some,
{
    let mut r: Vec<(BlockId, OpId)> = Vec::new();
    let mut i: usize = 0;
    while i < blocks.len()
        invariant
            context.inv(),
            i <= blocks.len(),
            r@ =~= sites_of(context@, blocks@, value, i as int),
            forall|k: int| 0 <= k < r@.len() ==> context@.ir.op((#[trigger] r@[k]).1) is Some,
        decreases blocks.len() - i,
    {
        let block = blocks[i];
        let ops: Vec<OpId> = if context.has_block(block) {
            copy_list(&context.block_ref(block).operations)
        } else {
            Vec::new()
        };
        let ghost before = r@;
        let mut j: usize = 0;
        while j < ops.len()
            invariant
                context.inv(),
                j <= ops.len(),
                r@ =~= before + sites_in(context@, block, ops@, value, j as int),
                forall|k: int| 0 <= k < r@.len() ==> context@.ir.op((#[trigger] r@[k]).1) is Some,
            decreases ops.len() - j,
        {
            let op = ops[j];
            if context.has_operation(op) {
                let reads: usize = positions(context.operands_of(op), value).len();
                let writes: usize = positions(context.results_of(op), value).len();
                if reads > 0 || writes > 0 {
                    r.push((block, op));
                }
            }
            j += 1;
        }
        i += 1;
    }
    r
}

/// With the first `n` of `sites` spilled.
pub open spec fn sites_spilled<T: TargetRegAlloc>(
    target: T,
    context: ContextView,
    sites: Seq<(BlockId, OpId)>,
    n: int,
    home: Home,
) -> ContextView
    decreases n,
{
    if n <= 0 {
        context
    } else {
        spilled_at(
            target,
            sites_spilled(target, context, sites, n - 1, home),
            sites[n - 1].0,
            sites[n - 1].1,
            home,
        )
    }
}

/// Why the first of the first `n` of `sites` that cannot be spilled cannot.
pub open spec fn sites_failure<T: TargetRegAlloc>(
    target: T,
    context: ContextView,
    sites: Seq<(BlockId, OpId)>,
    n: int,
    home: Home,
) -> Option<PassErrorView>
    decreases n,
{
    if n <= 0 {
        None
    } else {
        match sites_failure(target, context, sites, n - 1, home) {
            Some(e) => Some(e),
            None => site_failure(
                target,
                sites_spilled(target, context, sites, n - 1, home),
                sites[n - 1].0,
                sites[n - 1].1,
                home,
            ),
        }
    }
}

proof fn sites_failure_stays<T: TargetRegAlloc>(
    target: T,
    context: ContextView,
    sites: Seq<(BlockId, OpId)>,
    n: int,
    m: int,
    home: Home,
)
    requires
        0 < n <= m,
        sites_failure(target, context, sites, n, home) is Some,
    ensures
        sites_failure(target, context, sites, m, home) == sites_failure(
            target,
            context,
            sites,
            n,
            home,
        ),
    decreases m - n,
{
    if n < m {
        sites_failure_stays(target, context, sites, n, m - 1, home);
    }
}

/// Spilling `n` instructions mints `n` values and at most twice as many
/// operations, and takes no operation away.
pub proof fn spilling_mints_by_site<T: TargetRegAlloc>(
    target: T,
    context: ContextView,
    sites: Seq<(BlockId, OpId)>,
    n: int,
    home: Home,
)
    requires
        0 <= n,
    ensures
        grown_by(context, sites_spilled(target, context, sites, n, home), 2 * n, n),
    decreases n,
{
    if n > 0 {
        spilling_mints_by_site(target, context, sites, n - 1, home);
        spilling_mints_little(
            target,
            sites_spilled(target, context, sites, n - 1, home),
            sites[n - 1].0,
            sites[n - 1].1,
            home,
        );
    }
}

/// The numbers of the `n` values minted from `first` on.
pub open spec fn numbers_from(first: nat, n: int) -> Seq<u32> {
    Seq::new(n as nat, |i: int| (first + i) as u32)
}

/// Spills every instruction of `sites`, and records the fresh registers.
fn spill_value<T: TargetRegAlloc>(
    target: &T,
    context: &mut Context,
    sites: &Vec<(BlockId, OpId)>,
    spilled: ValueId,
    class: RegClassId,
    frame: &PhysReg,
    offset: i64,
    temps: &mut Vec<u32>,
) -> (r: Result<(), PassError>)
    requires
        old(context).inv(),
        old(context)@.has_room(2 * sites@.len() as int),
        forall|k: int| 0 <= k < sites@.len() ==> old(context)@.ir.op((#[trigger] sites@[k]).1) is Some,
    ensures
        final(context).inv(),
        keeps(old(context)@, final(context)@),
        ({
            let home = Home { spilled, class: class@, frame: reg_view(*frame), offset };
            let n = sites@.len() as int;
            match sites_failure(*target, old(context)@, sites@, n, home) {
                Some(e) => fails(r, e),
                None => r is Ok && final(context)@ == sites_spilled(
                    *target,
                    old(context)@,
                    sites@,
                    n,
                    home,
                ) && final(temps)@ == old(temps)@ + numbers_from(
                    old(context)@.ir.values.now.len(),
                    n,
                ),
            }
        }),
{
    let ghost home = Home { spilled, class: class@, frame: reg_view(*frame), offset };
    let ghost before = context@;
    let ghost held = temps@;
    let mut i: usize = 0;
    assert(temps@ =~= held + numbers_from(before.ir.values.now.len(), 0));
    while i < sites.len()
        invariant
            i <= sites.len(),
            context.inv(),
            keeps(old(context)@, context@),
            before.has_room(2 * sites@.len() as int),
            before == old(context)@,
            held == old(temps)@,
            home == (Home { spilled, class: class@, frame: reg_view(*frame), offset }),
            context@ == sites_spilled(*target, before, sites@, i as int, home),
            sites_failure(*target, before, sites@, i as int, home) is None,
            temps@ =~= held + numbers_from(before.ir.values.now.len(), i as int),
            forall|k: int|
                0 <= k < sites@.len() ==> context@.ir.op((#[trigger] sites@[k]).1) is Some,
        decreases sites.len() - i,
    {
        let (block, op) = sites[i];
        proof {
            spilling_mints_by_site(*target, before, sites@, i as int, home);
            assert(context@.ir.op(sites@[i as int].1) is Some);
        }
        let ghost here = context@;
        match spill_site(target, context, block, op, spilled, class, frame, offset) {
            Ok(fresh) => {
                temps.push(fresh.0);
                proof {
                    assert forall|k: int| 0 <= k < sites@.len() implies context@.ir.op(
                        (#[trigger] sites@[k]).1,
                    ) is Some by {
                        spilling_keeps_operations(*target, here, block, op, home, sites@[k].1);
                    }
                }
            },
            Err(e) => {
                proof {
                    sites_failure_stays(
                        *target,
                        before,
                        sites@,
                        i + 1,
                        sites@.len() as int,
                        home,
                    );
                }
                return Err(e);
            },
        }
        i += 1;
    }
    Ok(())
}

/// Setting operands keeps every operation.
proof fn setting_operands_keeps_operations(
    context: ContextView,
    op: OpId,
    at: Seq<usize>,
    n: int,
    new: ValueId,
    other: OpId,
)
    requires
        context.ir.op(other) is Some,
    ensures
        operands_set(context, op, at, n, new).ir.op(other) is Some,
    decreases n,
{
    if n > 0 {
        setting_operands_keeps_operations(context, op, at, n - 1, new, other);
    }
}

/// Setting results keeps every operation.
proof fn setting_results_keeps_operations(
    context: ContextView,
    op: OpId,
    at: Seq<usize>,
    n: int,
    new: ValueId,
    other: OpId,
)
    requires
        context.ir.op(other) is Some,
    ensures
        results_set(context, op, at, n, new).ir.op(other) is Some,
    decreases n,
{
    if n > 0 {
        setting_results_keeps_operations(context, op, at, n - 1, new, other);
    }
}

/// Adding an instruction anywhere in a block keeps every operation.
pub proof fn inserting_keeps_operations(
    context: ContextView,
    instruction: crate::backend::instructions::InstructionView,
    block: BlockId,
    at: int,
    other: OpId,
)
    requires
        context.ir.op(other) is Some,
    ensures
        context.with_instruction(instruction).ir.op(other) is Some,
        context.with_instruction(instruction).with_inserted(
            block,
            at,
            context.next_op(),
        ).ir.op(other) is Some,
{
    adding_keeps_blocks(context, instruction);
    crate::backend::instructions::adding_keeps_operations(context, instruction, other);
}

/// Spilling takes no operation away.
pub proof fn spilling_keeps_operations<T: TargetRegAlloc>(
    target: T,
    context: ContextView,
    block: BlockId,
    op: OpId,
    home: Home,
    other: OpId,
)
    requires
        context.ir.op(other) is Some,
    ensures
        spilled_at(target, context, block, op, home).ir.op(other) is Some,
{
    reveal(reloaded_at);
    reveal(spilled_at);
    let fresh = context.next_value();
    let uses = context.uses_at(op, home.spilled);
    let defines = context.defines_at(op, home.spilled);
    let minted = context.with_fresh(home.class);
    let reload = target.spill_reload(fresh, home.class, home.frame, home.offset);
    let added = minted.with_instruction(reload);
    inserting_keeps_operations(minted, reload, block, added.position_in(block, op)->0, other);
    let loaded = if uses.len() > 0 {
        minted.with_instruction_before(block, op, reload)
    } else {
        minted
    };
    setting_operands_keeps_operations(loaded, op, uses, uses.len() as int, fresh, other);
    let read = operands_set(loaded, op, uses, uses.len() as int, fresh);
    setting_results_keeps_operations(read, op, defines, defines.len() as int, fresh, other);
    let renamed = reloaded_at(target, context, block, op, home);
    let store = target.spill_store(fresh, home.class, home.frame, home.offset);
    inserting_keeps_operations(
        renamed,
        store,
        block,
        renamed.with_instruction(store).position_in(block, op)->0 + 1,
        other,
    );
}

/// What spilling changes: the IR, how far the frame reaches, and the fresh
/// registers that must not be spilled again.
pub ghost struct SpillState {
    pub context: ContextView,
    pub next_offset: i64,
    pub temps: Seq<u32>,
}

/// The class `vreg` is spilled as.
pub open spec fn spill_class(abi: AbiInfo, liveness: Liveness, vreg: u32) -> Option<RegClassId> {
    match entry(liveness.vreg_class@, vreg) {
        Some(class) => Some(class),
        None => default_class_of(abi, ValueKind::Int),
    }
}

/// The inputs of a spill.
pub ghost struct SpillPlan<T: TargetRegAlloc> {
    pub target: T,
    pub abi: AbiInfo,
    pub liveness: Liveness,
    pub blocks: Seq<BlockId>,
    pub slot_size: u32,
}

impl<T: TargetRegAlloc> SpillPlan<T> {
    /// Where `vreg` lives once spilled from `state` on.
    pub open spec fn home(self, state: SpillState, vreg: u32) -> Home {
        Home {
            spilled: ValueId(vreg),
            class: spill_class(self.abi, self.liveness, vreg)->0@,
            frame: reg_view(self.abi.sp),
            offset: placed_at(state.next_offset, self.slot_size) as i64,
        }
    }

    /// The instructions that name `vreg`.
    pub open spec fn sites(self, state: SpillState, vreg: u32) -> Seq<(BlockId, OpId)> {
        sites_of(state.context, self.blocks, ValueId(vreg), self.blocks.len() as int)
    }

    /// After `vreg` was given the next slot and every instruction naming it was
    /// spilled.
    pub open spec fn after(self, state: SpillState, vreg: u32) -> SpillState {
        let home = self.home(state, vreg);
        let sites = self.sites(state, vreg);
        SpillState {
            context: sites_spilled(self.target, state.context, sites, sites.len() as int, home),
            next_offset: (home.offset + self.slot_size) as i64,
            temps: state.temps + numbers_from(
                state.context.ir.values.now.len(),
                sites.len() as int,
            ),
        }
    }

    /// After the first `n` of `vregs` were spilled.
    pub open spec fn after_all(self, state: SpillState, vregs: Seq<u32>, n: int) -> SpillState
        decreases n,
    {
        if n <= 0 {
            state
        } else {
            self.after(self.after_all(state, vregs, n - 1), vregs[n - 1])
        }
    }

    /// Why `vreg` cannot be spilled.
    pub open spec fn failure(self, state: SpillState, vreg: u32) -> Option<PassErrorView> {
        if spill_class(self.abi, self.liveness, vreg) is None {
            Some(
                PassErrorView::InvalidRuleSet(
                    "spilled vreg "@ + decimal(vreg as nat) + " has no register class"@,
                ),
            )
        } else {
            let sites = self.sites(state, vreg);
            sites_failure(
                self.target,
                state.context,
                sites,
                sites.len() as int,
                self.home(state, vreg),
            )
        }
    }

    /// Why the first of the first `n` of `vregs` that cannot be spilled cannot.
    pub open spec fn failure_of(self, state: SpillState, vregs: Seq<u32>, n: int) -> Option<
        PassErrorView,
    >
        decreases n,
    {
        if n <= 0 {
            None
        } else {
            match self.failure_of(state, vregs, n - 1) {
                Some(e) => Some(e),
                None => self.failure(self.after_all(state, vregs, n - 1), vregs[n - 1]),
            }
        }
    }

    /// Whether ids and offsets do not run out while the first `n` of `vregs` are
    /// spilled.
    pub open spec fn fits(self, state: SpillState, vregs: Seq<u32>, n: int) -> bool
        decreases n,
    {
        n > 0 ==> {
            let here = self.after_all(state, vregs, n - 1);
            &&& self.fits(state, vregs, n - 1)
            &&& here.context.has_room(2 * self.sites(here, vregs[n - 1]).len() as int)
            &&& 0 <= here.next_offset
            &&& here.next_offset + 2 * self.slot_size + 1 <= i64::MAX
        }
    }

    proof fn failure_stays(self, state: SpillState, vregs: Seq<u32>, n: int, m: int)
        requires
            0 < n <= m,
            self.failure_of(state, vregs, n) is Some,
        ensures
            self.failure_of(state, vregs, m) == self.failure_of(state, vregs, n),
        decreases m - n,
    {
        if n < m {
            self.failure_stays(state, vregs, n, m - 1);
        }
    }

    proof fn fits_before(self, state: SpillState, vregs: Seq<u32>, n: int, m: int)
        requires
            0 <= n <= m,
            self.fits(state, vregs, m),
        ensures
            self.fits(state, vregs, n),
        decreases m - n,
    {
        if n < m {
            self.fits_before(state, vregs, n, m - 1);
        }
    }
}

/// Spills every one of `vregs`: each is given a slot of the frame, and every
/// instruction naming it a fresh register, loaded before and stored after it.
pub fn spill_all<T: TargetRegAlloc>(
    target: &T,
    abi: &AbiInfo,
    context: &mut Context,
    liveness: &Liveness,
    blocks: &Vec<BlockId>,
    vregs: &Vec<u32>,
    frame: &mut FramePlan,
) -> (r: Result<(), PassError>)
    requires
        old(context).inv(),
        (SpillPlan {
            target: *target,
            abi: *abi,
            liveness: *liveness,
            blocks: blocks@,
            slot_size: old(frame).slot_size,
        }).fits(
            SpillState {
                context: old(context)@,
                next_offset: old(frame).next_offset,
                temps: old(frame).temps@,
            },
            vregs@,
            vregs@.len() as int,
        ),
    ensures
        final(context).inv(),
        keeps(old(context)@, final(context)@),
        ({
            let plan = SpillPlan {
                target: *target,
                abi: *abi,
                liveness: *liveness,
                blocks: blocks@,
                slot_size: old(frame).slot_size,
            };
            let state = SpillState {
                context: old(context)@,
                next_offset: old(frame).next_offset,
                temps: old(frame).temps@,
            };
            let n = vregs@.len() as int;
            match plan.failure_of(state, vregs@, n) {
                Some(e) => fails(r, e),
                None => r is Ok && plan.after_all(state, vregs@, n) == (SpillState {
                    context: final(context)@,
                    next_offset: final(frame).next_offset,
                    temps: final(frame).temps@,
                }),
            }
        }),
        final(frame).align == old(frame).align,
        final(frame).slot_size == old(frame).slot_size,
        final(frame).save_style == old(frame).save_style,
        final(frame).rounds == old(frame).rounds,
{
    let ghost plan = SpillPlan {
        target: *target,
        abi: *abi,
        liveness: *liveness,
        blocks: blocks@,
        slot_size: frame.slot_size,
    };
    let ghost state = SpillState {
        context: context@,
        next_offset: frame.next_offset,
        temps: frame.temps@,
    };
    let ghost shape = *frame;
    let info = target.register_info();
    let default_class = info.default_integer_class(abi);
    let mut i: usize = 0;
    while i < vregs.len()
        invariant
            i <= vregs.len(),
            context.inv(),
            keeps(old(context)@, context@),
            plan == (SpillPlan {
                target: *target,
                abi: *abi,
                liveness: *liveness,
                blocks: blocks@,
                slot_size: shape.slot_size,
            }),
            default_class == default_class_of(*abi, ValueKind::Int),
            shape == *old(frame),
            state == (SpillState {
                context: old(context)@,
                next_offset: old(frame).next_offset,
                temps: old(frame).temps@,
            }),
            frame.align == shape.align,
            frame.slot_size == shape.slot_size,
            frame.save_style == shape.save_style,
            frame.rounds == shape.rounds,
            plan.fits(state, vregs@, vregs@.len() as int),
            plan.failure_of(state, vregs@, i as int) is None,
            plan.after_all(state, vregs@, i as int) == (SpillState {
                context: context@,
                next_offset: frame.next_offset,
                temps: frame.temps@,
            }),
        decreases vregs.len() - i,
    {
        let vreg: u32 = vregs[i];
        let ghost here = plan.after_all(state, vregs@, i as int);
        proof {
            plan.fits_before(state, vregs@, i + 1, vregs@.len() as int);
        }
        let own = get_entry(&liveness.vreg_class, vreg);
        let class = match own {
            Some(class) => class,
            None => match default_class {
                Some(class) => class,
                None => {
                    proof {
                        plan.failure_stays(state, vregs@, i + 1, vregs@.len() as int);
                    }
                    let message = cat3(
                        "spilled vreg ",
                        decimal_string(vreg as u64).as_str(),
                        " has no register class",
                    );
                    return Err(PassError::InvalidRuleSet(message));
                },
            },
        };
        let spilled = ValueId(vreg);
        let offset: i64 = frame.alloc_slot();
        let sites = spill_sites(context, blocks, spilled);
        let ghost home = plan.home(here, vreg);
        match spill_value(
            target,
            context,
            &sites,
            spilled,
            class,
            &abi.sp,
            offset,
            &mut frame.temps,
        ) {
            Ok(_) => {},
            Err(e) => {
                proof {
                    plan.failure_stays(state, vregs@, i + 1, vregs@.len() as int);
                }
                return Err(e);
            },
        }
        i += 1;
    }
    Ok(())
}

} // verus!

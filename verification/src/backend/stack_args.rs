//! Arguments that arrive on the stack, and the code around a frame.
use vstd::prelude::*;
use crate::access::uint_attr;
use crate::backend::abi::AbiInfo;
use crate::backend::classes::ClassView;
use crate::backend::classes::PhysReg;
use crate::backend::classes::RegClassId;
use crate::backend::frame::FramePlan;
use crate::backend::instructions::add_instruction;
use crate::backend::instructions::adding_keeps_blocks;
use crate::backend::instructions::adding_keeps_operations;
use crate::backend::instructions::fails;
use crate::backend::instructions::PassError;
use crate::backend::instructions::PassErrorView;
use crate::backend::listing::listed_live;
use crate::backend::registers::value_class;
use crate::backend::tables::entry;
use crate::backend::tables::get_entry;
use crate::backend::target::reg_view;
use crate::backend::target::RegView;
use crate::backend::target::TargetRegAlloc;
use crate::context::owned::block_owned;
use crate::context::owned::erased_exactly;
use crate::context::owned::op_owned;
use crate::context::owned::region_owned;
use crate::context::owned::value_owned;
use crate::context::Context;
use crate::context::ContextView;
use crate::ids::BlockId;
use crate::ids::OpId;
use crate::ids::ValueId;
use crate::ir::copy_list;
use crate::text::cat2;
use crate::text::cat3;
use crate::text::cat7;
use crate::text::decimal;
use crate::text::decimal_string;
use crate::text::same;

verus! {

/// The attribute of a placeholder load of an argument that arrives on the stack.
pub const ABI_STACK_INDEX_ATTR: &'static str = "abi_stack_index";

/// An argument that arrives on the stack.
#[derive(Debug, Clone, Copy)]
pub struct IncomingStackArg {
    pub value: ValueId,
    pub class: RegClassId,
    pub stack_index: usize,
    pub load: OpId,
}

/// What is known of an argument that arrives on the stack.
pub ghost struct StackArgView {
    pub value: ValueId,
    pub class: ClassView,
    pub stack_index: usize,
    pub load: OpId,
}

impl View for IncomingStackArg {
    type V = StackArgView;

    open spec fn view(&self) -> StackArgView {
        StackArgView {
            value: self.value,
            class: self.class@,
            stack_index: self.stack_index,
            load: self.load,
        }
    }
}

/// A list of stack arguments, by what is known of each.
pub open spec fn arg_views(list: Seq<IncomingStackArg>) -> Seq<StackArgView> {
    list.map_values(|a: IncomingStackArg| a@)
}

/// The placeholder loads among the first `n` of `list`.
pub open spec fn stack_args_in(context: ContextView, list: Seq<(BlockId, OpId)>, n: int) -> Seq<
    StackArgView,
>
    decreases n,
{
    if n <= 0 {
        Seq::empty()
    } else {
        let before = stack_args_in(context, list, n - 1);
        let op = list[n - 1].1;
        match context.uint_attr(op, "abi_stack_index"@) {
            Some(index) => {
                let value = context.ir.op(op)->0.results[0];
                before.push(
                    StackArgView {
                        value,
                        class: context.register_class(value)->0,
                        stack_index: (index as u64) as usize,
                        load: op,
                    },
                )
            },
            None => before,
        }
    }
}

/// Why a placeholder load among the first `n` of `list` is none.
pub open spec fn stack_arg_failure(context: ContextView, list: Seq<(BlockId, OpId)>, n: int) -> Option<
    PassErrorView,
>
    decreases n,
{
    if n <= 0 {
        None
    } else {
        match stack_arg_failure(context, list, n - 1) {
            Some(e) => Some(e),
            None => {
                let op = list[n - 1].1;
                let results = context.ir.op(op)->0.results;
                if context.uint_attr(op, "abi_stack_index"@) is None {
                    None
                } else if results.len() == 0 {
                    Some(
                        PassErrorView::InvalidRuleSet(
                            "stack argument load has no virtual definition"@,
                        ),
                    )
                } else if context.register_class(results[0]) is None {
                    Some(
                        PassErrorView::InvalidRuleSet(
                            "stack argument load defines a value with no register class"@,
                        ),
                    )
                } else {
                    None
                }
            },
        }
    }
}

proof fn stack_arg_failure_stays(context: ContextView, list: Seq<(BlockId, OpId)>, n: int, m: int)
    requires
        0 < n <= m,
        stack_arg_failure(context, list, n) is Some,
    ensures
        stack_arg_failure(context, list, m) == stack_arg_failure(context, list, n),
    decreases m - n,
{
    if n < m {
        stack_arg_failure_stays(context, list, n, m - 1);
    }
}

/// The placeholder loads of a function, one per incoming stack argument.
pub fn collect_stack_arg_loads(context: &Context, list: &Vec<(BlockId, OpId)>) -> (r: Result<
    Vec<IncomingStackArg>,
    PassError,
>)
    requires
        context.inv(),
        context@.values_sound(),
        listed_live(context@, list@),
    ensures
        match stack_arg_failure(context@, list@, list@.len() as int) {
            Some(e) => fails(r, e),
            None => r is Ok && arg_views(r->Ok_0@) == stack_args_in(
                context@,
                list@,
                list@.len() as int,
            ),
        },
{
    let mut r: Vec<IncomingStackArg> = Vec::new();
    let mut i: usize = 0;
    assert(arg_views(r@) =~= Seq::empty());
    while i < list.len()
        invariant
            context.inv(),
            context@.values_sound(),
            listed_live(context@, list@),
            i <= list.len(),
            stack_arg_failure(context@, list@, i as int) is None,
            arg_views(r@) =~= stack_args_in(context@, list@, i as int),
        decreases list.len() - i,
    {
        let op = list[i].1;
        assert(context@.ir.op(list@[i as int].1) is Some);
        if let Some(index) = uint_attr(context, op, "abi_stack_index") {
            if context.results_of(op).len() == 0 {
                proof {
                    stack_arg_failure_stays(context@, list@, i + 1, list@.len() as int);
                }
                return Err(
                    PassError::InvalidRuleSet(
                        "stack argument load has no virtual definition".to_owned(),
                    ),
                );
            }
            let value = context.results_of(op)[0];
            assert(context@.value_sound(value));
            let class = match value_class(context, value) {
                Some(class) => class,
                None => {
                    proof {
                        stack_arg_failure_stays(context@, list@, i + 1, list@.len() as int);
                    }
                    return Err(
                        PassError::InvalidRuleSet(
                            "stack argument load defines a value with no register class".to_owned(),
                        ),
                    );
                },
            };
            let stack_index: usize = #[verifier::truncate]
            (index as usize);
            let ghost held = arg_views(r@);
            let arg = IncomingStackArg { value, class, stack_index, load: op };
            r.push(arg);
            assert(arg_views(r@) =~= held.push(arg@));
        }
        i += 1;
    }
    Ok(r)
}

/// What loading stack arguments rests on.
pub ghost struct ArgPlan<T: TargetRegAlloc> {
    pub target: T,
    pub frame: RegView,
    pub entry: BlockId,
    pub assignment: Seq<(u32, PhysReg)>,
    pub plan: FramePlan,
    pub frame_size: u32,
    pub pushed: usize,
}

/// Whether a stack argument can be loaded: its placeholder stands, the register it
/// goes to was assigned, and its place can be measured.
pub open spec fn arg_placed(
    context: ContextView,
    assignment: Seq<(u32, PhysReg)>,
    arg: StackArgView,
) -> bool {
    &&& context.ir.op(arg.load) is Some
    &&& context.ir.op(arg.load)->0.results.len() > 0 ==> entry(
        assignment,
        context.ir.op(arg.load)->0.results[0].0,
    ) is Some
    &&& arg.stack_index <= 0x3fff_ffff
}

/// Whether every stack argument can be loaded.
pub open spec fn args_placed(
    context: ContextView,
    assignment: Seq<(u32, PhysReg)>,
    args: Seq<StackArgView>,
) -> bool {
    forall|i: int| 0 <= i < args.len() ==> arg_placed(context, assignment, #[trigger] args[i])
}

impl<T: TargetRegAlloc> ArgPlan<T> {
    /// The register an argument was given.
    pub open spec fn register(self, context: ContextView, arg: StackArgView) -> PhysReg {
        entry(self.assignment, context.ir.op(arg.load)->0.results[0].0)->0
    }

    /// Why an argument cannot be loaded.
    pub open spec fn failure(self, context: ContextView, arg: StackArgView) -> Option<
        PassErrorView,
    > {
        let results = context.ir.op(arg.load)->0.results;
        let dst = self.register(context, arg);
        if context.ir.op(arg.load) is None {
            Some(PassErrorView::RewriteFailed(arg.load))
        } else if results.len() == 0 {
            Some(
                PassErrorView::InvalidRuleSet(
                    "stack argument load for %"@ + decimal(arg.value.0 as nat)
                        + " has no virtual definition"@,
                ),
            )
        } else if dst.0@.file != arg.class.file || dst.0@.group_width != arg.class.group_width {
            Some(
                PassErrorView::InvalidRuleSet(
                    "stack argument %"@ + decimal(arg.value.0 as nat) + " assigned to (RegClassId("@
                        + dst.0@.name + "), "@ + decimal(dst.1 as nat) + "), expected class "@
                        + arg.class.name,
                ),
            )
        } else if context.position_in(self.entry, arg.load) is None {
            Some(PassErrorView::RewriteFailed(arg.load))
        } else {
            None
        }
    }

    /// Whether `after` is `before` with the placeholder of an argument replaced
    /// by a load from where the argument lies.
    pub open spec fn loaded(
        self,
        before: ContextView,
        after: ContextView,
        arg: StackArgView,
    ) -> bool {
        let value = before.ir.op(arg.load)->0.results[0];
        let dst = self.register(before, arg);
        let reload = self.target.spill_reload(
            value,
            dst.0@,
            self.frame,
            self.plan.argument_offset(
                self.frame_size,
                self.pushed as int,
                arg.stack_index as int,
            ) as i64,
        );
        let replaced = before.with_instruction(reload).with_op_replaced(
            self.entry,
            before.position_in(self.entry, arg.load)->0,
            arg.load,
            before.next_op(),
        );
        after == replaced.with_ir(after.ir) && erased_exactly(
            replaced.ir,
            after.ir,
            |x: OpId| op_owned(replaced.ir, seq![arg.load], Seq::empty(), x),
            |v: ValueId|
                value_owned(replaced.ir, seq![arg.load], Seq::empty(), v)
                    && !reload.results.contains(v),
            |b: BlockId| block_owned(replaced.ir, seq![arg.load], Seq::empty(), b),
            |x: crate::ids::RegionId| region_owned(replaced.ir, seq![arg.load], Seq::empty(), x),
        )
    }

    /// Whether every argument of `args` whose placeholder is there and defines a
    /// value was given a register, and lies where an offset reaches.
    pub open spec fn placed(self, context: ContextView, args: Seq<StackArgView>) -> bool {
        args_placed(context, self.assignment, args)
    }
}

fn load_arg<T: TargetRegAlloc>(
    target: &T,
    context: &mut Context,
    frame: &PhysReg,
    entry_block: BlockId,
    assignment: &Vec<(u32, PhysReg)>,
    plan: &FramePlan,
    frame_size: u32,
    pushed: usize,
    arg: &IncomingStackArg,
) -> (r: Result<(), PassError>)
    requires
        old(context).inv(),
        old(context)@.has_room(1),
        pushed <= 0x3fff_ffff,
        arg.stack_index <= 0x3fff_ffff,
        old(context)@.ir.op(arg.load) is Some && old(context)@.ir.op(
            arg.load,
        )->0.results.len() > 0 ==> entry(
            assignment@,
            old(context)@.ir.op(arg.load)->0.results[0].0,
        ) is Some,
    ensures
        final(context).inv(),
        ({
            let plan = ArgPlan {
                target: *target,
                frame: reg_view(*frame),
                entry: entry_block,
                assignment: assignment@,
                plan: *plan,
                frame_size,
                pushed,
            };
            match plan.failure(old(context)@, arg@) {
                Some(e) => fails(r, e),
                None => r is Ok && plan.loaded(old(context)@, final(context)@, arg@),
            }
        }),
{
    if !context.has_operation(arg.load) {
        return Err(PassError::RewriteFailed(arg.load));
    }
    if context.results_of(arg.load).len() == 0 {
        let message = cat3(
            "stack argument load for %",
            decimal_string(arg.value.0 as u64).as_str(),
            " has no virtual definition",
        );
        return Err(PassError::InvalidRuleSet(message));
    }
    let value = context.results_of(arg.load)[0];
    let dst: PhysReg = get_entry(assignment, value.0).unwrap();
    if !same(dst.0.file(), arg.class.file()) || dst.0.0.group_width != arg.class.0.group_width {
        let head = cat7(
            "stack argument %",
            decimal_string(arg.value.0 as u64).as_str(),
            " assigned to (RegClassId(",
            dst.0.name(),
            "), ",
            decimal_string(dst.1 as u64).as_str(),
            "), expected class ",
        );
        return Err(PassError::InvalidRuleSet(cat2(head.as_str(), arg.class.name())));
    }
    let offset: i64 = plan.incoming_stack_arg_offset(frame_size, pushed, arg.stack_index);
    let reload = target.emit_spill_reload(value, dst.0, frame, offset);
    let keep = copy_list(&reload.results);
    let ghost before = context@;
    let ghost made = reload@;
    proof {
        adding_keeps_blocks(before, made);
        adding_keeps_operations(before, made, before.next_op());
    }
    let new = add_instruction(context, reload);
    if !context.replace_op_in_block(entry_block, arg.load, new) {
        return Err(PassError::RewriteFailed(arg.load));
    }
    context.remove_operation_except(arg.load, &keep);
    Ok(())
}

/// Loading one argument leaves the results of every operation that stays.
proof fn loading_keeps_results<T: TargetRegAlloc>(
    plan: ArgPlan<T>,
    before: ContextView,
    after: ContextView,
    arg: StackArgView,
    other: OpId,
)
    requires
        plan.loaded(before, after, arg),
        plan.failure(before, arg) is None,
        before.ir.ops.now.len() < u32::MAX,
        other.0 < before.ir.ops.now.len(),
        after.ir.op(other) is Some,
    ensures
        before.ir.op(other) is Some,
        after.ir.op(other)->0.results == before.ir.op(other)->0.results,
{
    let value = before.ir.op(arg.load)->0.results[0];
    let dst = plan.register(before, arg);
    let reload = plan.target.spill_reload(
        value,
        dst.0@,
        plan.frame,
        plan.plan.argument_offset(
            plan.frame_size,
            plan.pushed as int,
            arg.stack_index as int,
        ) as i64,
    );
    adding_keeps_blocks(before, reload);
    adding_keeps_operations(before, reload, other);
    adding_changes_nothing_else(before, reload, other);
}

/// An operation that is there after an instruction was added was there before,
/// or is the new one.
proof fn adding_changes_nothing_else(
    context: ContextView,
    instruction: crate::backend::instructions::InstructionView,
    other: OpId,
)
    requires
        other.0 < context.ir.ops.now.len(),
        context.with_instruction(instruction).ir.op(other) is Some,
    ensures
        context.ir.op(other) is Some,
{
    crate::backend::instructions::adding_keeps_old_ids(context, instruction, other);
}

/// Loading arguments mints one operation for each.
proof fn loading_mints_one<T: TargetRegAlloc>(
    plan: ArgPlan<T>,
    before: ContextView,
    after: ContextView,
    arg: StackArgView,
)
    requires
        plan.loaded(before, after, arg),
    ensures
        after.ir.ops.now.len() == before.ir.ops.now.len() + 1,
        after.names.len() <= before.names.len() + 1,
        after.ir.values.now.len() == before.ir.values.now.len(),
        after.types == before.types,
{
    let value = before.ir.op(arg.load)->0.results[0];
    let dst = plan.register(before, arg);
    let reload = plan.target.spill_reload(
        value,
        dst.0@,
        plan.frame,
        plan.plan.argument_offset(
            plan.frame_size,
            plan.pushed as int,
            arg.stack_index as int,
        ) as i64,
    );
    adding_keeps_blocks(before, reload);
}

/// A run of argument loads: each of the first `n` of `args` loaded in order,
/// from `steps[0]` on.
pub open spec fn loads_run<T: TargetRegAlloc>(
    plan: ArgPlan<T>,
    steps: Seq<ContextView>,
    args: Seq<StackArgView>,
    n: int,
) -> bool {
    &&& steps.len() == n + 1
    &&& forall|i: int|
        0 <= i < n ==> plan.failure(steps[i], #[trigger] args[i]) is None && plan.loaded(
            steps[i],
            steps[i + 1],
            args[i],
        )
}

/// Replaces the placeholder of every incoming stack argument by a load from
/// where the argument lies, now that the frame is known.
pub fn insert_incoming_stack_arg_loads<T: TargetRegAlloc>(
    target: &T,
    abi: &AbiInfo,
    context: &mut Context,
    entry_block: BlockId,
    assignment: &Vec<(u32, PhysReg)>,
    args: &Vec<IncomingStackArg>,
    plan: &FramePlan,
    frame_size: u32,
    pushed: usize,
) -> (r: Result<(), PassError>)
    requires
        old(context).inv(),
        old(context)@.has_room(args@.len() as int),
        pushed <= 0x3fff_ffff,
        (ArgPlan {
            target: *target,
            frame: reg_view(abi.sp),
            entry: entry_block,
            assignment: assignment@,
            plan: *plan,
            frame_size,
            pushed,
        }).placed(old(context)@, arg_views(args@)),
    ensures
        final(context).inv(),
        ({
            let plan = ArgPlan {
                target: *target,
                frame: reg_view(abi.sp),
                entry: entry_block,
                assignment: assignment@,
                plan: *plan,
                frame_size,
                pushed,
            };
            let views = arg_views(args@);
            match r {
                Ok(_) => exists|steps: Seq<ContextView>| #[trigger]
                    loads_run(plan, steps, views, views.len() as int) && steps[0]
                        == old(context)@ && steps.last() == final(context)@,
                Err(e) => exists|steps: Seq<ContextView>, n: int| #[trigger]
                    loads_run(plan, steps, views, n) && 0 <= n < views.len() && steps[0]
                        == old(context)@ && plan.failure(steps.last(), views[n]) == Some(e@),
            }
        }),
{
    let ghost all = ArgPlan {
        target: *target,
        frame: reg_view(abi.sp),
        entry: entry_block,
        assignment: assignment@,
        plan: *plan,
        frame_size,
        pushed,
    };
    let ghost views = arg_views(args@);
    let ghost first = context@;
    let ghost mut steps: Seq<ContextView> = seq![context@];
    let mut i: usize = 0;
    while i < args.len()
        invariant
            i <= args.len(),
            context.inv(),
            pushed <= 0x3fff_ffff,
            all == (ArgPlan {
                target: *target,
                frame: reg_view(abi.sp),
                entry: entry_block,
                assignment: assignment@,
                plan: *plan,
                frame_size,
                pushed,
            }),
            views == arg_views(args@),
            first == old(context)@,
            first.has_room(args@.len() as int),
            all.placed(first, views),
            loads_run(all, steps, views, i as int),
            steps[0] == first,
            steps.last() == context@,
            context@.ir.ops.now.len() == first.ir.ops.now.len() + i,
            context@.names.len() <= first.names.len() + i,
            context@.ir.values.now.len() == first.ir.values.now.len(),
            context@.types == first.types,
            forall|k: int|
                0 <= k < views.len() && context@.ir.op((#[trigger] views[k]).load) is Some
                    ==> context@.ir.op(views[k].load)->0.results == first.ir.op(
                    views[k].load,
                )->0.results,
        decreases args.len() - i,
    {
        assert(views[i as int] == args@[i as int]@);
        let ghost before = context@;
        assert(first.ir.op(views[i as int].load) is Some);
        match load_arg(
            target,
            context,
            &abi.sp,
            entry_block,
            assignment,
            plan,
            frame_size,
            pushed,
            &args[i],
        ) {
            Ok(_) => {},
            Err(e) => {
                assert(loads_run(all, steps, views, i as int));
                assert(all.failure(steps.last(), views[i as int]) == Some(e@));
                return Err(e);
            },
        }
        proof {
            loading_mints_one(all, before, context@, views[i as int]);
            assert forall|k: int|
                0 <= k < views.len() && context@.ir.op((#[trigger] views[k]).load) is Some implies context@.ir.op(
                views[k].load,
            )->0.results == first.ir.op(views[k].load)->0.results by {
                assert(first.ir.op(views[k].load) is Some);
                loading_keeps_results(all, before, context@, views[i as int], views[k].load);
            }
            let held = steps;
            steps = steps.push(context@);
            assert forall|k: int| 0 <= k < i + 1 implies all.failure(
                steps[k],
                #[trigger] views[k],
            ) is None && all.loaded(steps[k], steps[k + 1], views[k]) by {
                if k < i {
                    assert(steps[k] == held[k] && steps[k + 1] == held[k + 1]);
                }
            }
        }
        i += 1;
    }
    assert(loads_run(all, steps, views, views.len() as int));
    Ok(())
}

} // verus!

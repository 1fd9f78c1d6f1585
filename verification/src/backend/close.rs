//! What follows the last round: copies are settled, the frame gets its size,
//! stack arguments their loads, and the symbol a record of where values went.
use vstd::prelude::*;
use crate::backend::classes::PhysReg;
use crate::backend::finish::callee_saved_slots;
use crate::backend::finish::copies_settled;
use crate::backend::finish::save_offsets;
use crate::backend::finish::saves;
use crate::backend::finish::settle_copies;
use crate::backend::frame::at_least_one;
use crate::backend::frame::rounding_reaches_a_multiple;
use crate::backend::frame::FramePlan;
use crate::backend::instructions::fails;
use crate::backend::instructions::room_for;
use crate::backend::instructions::PassError;
use crate::backend::instructions::PassErrorView;
use crate::backend::listing::listed;
use crate::backend::listing::listed_ops;
use crate::backend::pass::entered;
use crate::backend::pass::exits_of;
use crate::backend::pass::first_of;
use crate::backend::pass::record_assignment;
use crate::backend::pass::recorded_on;
use crate::backend::pass::Allocation;
use crate::backend::pass::RegisterAllocationPass;
use crate::backend::registers::Machine;
use crate::backend::stack_args::arg_placed;
use crate::backend::stack_args::arg_views;
use crate::backend::stack_args::args_placed;
use crate::backend::stack_args::collect_stack_arg_loads;
use crate::backend::stack_args::insert_incoming_stack_arg_loads;
use crate::backend::stack_args::loads_run;
use crate::backend::stack_args::stack_arg_failure;
use crate::backend::stack_args::stack_args_in;
use crate::backend::stack_args::ArgPlan;
use crate::backend::stack_args::IncomingStackArg;
use crate::backend::stack_args::StackArgView;
use crate::backend::tables::get_entry;
use crate::backend::target::reg_view;
use crate::backend::target::TargetRegAlloc;
use crate::context::Context;
use crate::context::ContextView;
use crate::ids::BlockId;
use crate::ids::OpId;

verus! {

/// The frame an assignment asks for, and the arguments that lie above it.
#[derive(Debug)]
pub struct Settled {
    /// The callee-saved registers the assignment used, each with its slot.
    pub saves: Vec<(PhysReg, i64)>,
    /// How far the prologue moves the stack pointer.
    pub frame_size: u32,
    pub args: Vec<IncomingStackArg>,
}

impl Settled {
    /// Whether the function needs a prologue and epilogues.
    pub open spec fn framing(self) -> bool {
        self.frame_size > 0 || self.saves@.len() > 0
    }

    /// Whether the function needs a prologue and epilogues.
    pub fn needs_frame(&self) -> (r: bool)
        ensures
            r == self.framing(),
    {
        self.frame_size > 0 || self.saves.len() > 0
    }
}

impl Allocation {
    /// Whether slots for `n` more registers fit into a frame a number can
    /// measure.
    pub open spec fn frame_fits(self, n: int) -> bool {
        &&& 0 <= self.frame.next_offset
        &&& self.frame.align < 0x4000_0000
        &&& self.frame.next_offset + (n + 1) * (3 * self.frame.slot_size + 1) + 2
            * self.frame.align + 1 <= u32::MAX
    }

    /// What settling leaves of the frame: the slots of the registers saved,
    /// one after another, and the size they come to.
    pub open spec fn framed_as(
        self,
        after: FramePlan,
        settled: Settled,
        assignment: Seq<(u32, PhysReg)>,
        saved: Seq<PhysReg>,
    ) -> bool {
        after.same_but_offset(self.frame) && (exists|registers: Seq<PhysReg>| #[trigger]
            saves(assignment, saved, registers) && (settled.saves@, after.next_offset)
                == save_offsets(
                registers,
                self.frame.save_style,
                self.frame.slot_size,
                self.frame.next_offset,
                registers.len() as int,
            )) && settled.frame_size == after.adjustment(
            self.has_calls,
            settled.saves@.len() as int,
        )
    }
}

impl<T: TargetRegAlloc> RegisterAllocationPass<T> {
    /// Settles the copies marked for coalescing and gives the callee-saved
    /// registers the assignment used their slots, which fixes the frame. Frame-slot
    /// targets reserve a normal frame slot; push/pop targets keep saves outside
    /// the stable frame area.
    pub fn settle(
        &self,
        context: &mut Context,
        r: &mut Allocation,
        assignment: &Vec<(u32, PhysReg)>,
    ) -> (s: Result<Settled, PassError>)
        requires
            old(context).inv(),
            old(context)@.values_sound(),
            assignment@.len() <= 0x3fff_ffff,
            old(r).frame_fits(assignment@.len() as int),
        ensures
            final(context).inv(),
            final(context)@.values_sound(),
            copies_settled(old(context)@, final(context)@, old(r).copies@, assignment@),
            final(r).blocks@ == old(r).blocks@,
            final(r).precolor@ == old(r).precolor@,
            final(r).copies@ == old(r).copies@,
            final(r).affinities@ == old(r).affinities@,
            final(r).has_calls == old(r).has_calls,
            ({
                let list = listed(final(context)@, old(r).blocks@);
                match stack_arg_failure(final(context)@, list, list.len() as int) {
                    Some(e) => fails(s, e),
                    None => s is Ok && old(r).framed_as(
                        final(r).frame,
                        s->Ok_0,
                        assignment@,
                        self.abi.callee_saved@,
                    ) && s->Ok_0.saves@.len() <= assignment@.len() && arg_views(s->Ok_0.args@)
                        == stack_args_in(final(context)@, list, list.len() as int),
                }
            }),
    {
        let ghost n = assignment@.len() as int;
        let ghost slot = r.frame.slot_size as int;
        let ghost start = r.frame.next_offset as int;
        settle_copies(context, &r.copies, assignment);
        proof {
            assert((n + 1) * (2 * slot + 1) <= (n + 1) * (3 * slot + 1)) by (nonlinear_arith)
                requires
                    0 <= n,
                    0 <= slot,
            ;
        }
        let saves = callee_saved_slots(assignment, &mut r.frame, &self.abi.callee_saved);
        proof {
            let count = saves@.len() as int;
            let next = r.frame.next_offset as int;
            assert(next + count * slot + 2 * r.frame.align + 1 <= u32::MAX) by {
                assert(n * (2 * slot + 1) + count * slot <= (n + 1) * (3 * slot + 1))
                    by (nonlinear_arith)
                    requires
                        0 <= count <= n,
                        0 <= slot,
                ;
            }
            assert(0 <= count * slot) by (nonlinear_arith)
                requires
                    0 <= count,
                    0 <= slot,
            ;
            rounding_reaches_a_multiple(next, at_least_one(r.frame.align));
            assert(r.frame.stable() <= next + r.frame.align + 1);
        }
        let frame_size: u32 = r.frame.prologue_adjustment(r.has_calls, saves.len());
        let list = listed_ops(context, &r.blocks);
        match collect_stack_arg_loads(context, &list) {
            Ok(args) => Ok(Settled { saves, frame_size, args }),
            Err(e) => Err(e),
        }
    }
}

/// How loading the stack arguments of a settled function goes on.
pub open spec fn arg_plan<T: TargetRegAlloc>(
    pass: RegisterAllocationPass<T>,
    r: Allocation,
    assignment: Seq<(u32, PhysReg)>,
    settled: Settled,
) -> ArgPlan<T> {
    ArgPlan {
        target: pass.target,
        frame: reg_view(pass.abi.sp),
        entry: r.blocks@[0],
        assignment,
        plan: r.frame,
        frame_size: settled.frame_size,
        pushed: settled.saves@.len() as usize,
    }
}

/// Whether every stack argument of `args` is loaded, one after another, and where
/// every value went is then recorded on `symbol`.
pub open spec fn records<T: TargetRegAlloc>(
    plan: ArgPlan<T>,
    before: ContextView,
    after: ContextView,
    symbol: OpId,
    args: Seq<StackArgView>,
) -> bool {
    exists|steps: Seq<ContextView>| #[trigger]
        loads_run(plan, steps, args, args.len() as int) && steps[0] == before && recorded_on(
            steps.last(),
            after,
            symbol,
            plan.assignment,
        )
}

/// Whether recording fails by `e`: one of the arguments cannot be loaded, once those
/// before it are, or `symbol` went with the last of them.
pub open spec fn record_fails<T: TargetRegAlloc>(
    plan: ArgPlan<T>,
    before: ContextView,
    symbol: OpId,
    args: Seq<StackArgView>,
    e: PassErrorView,
) -> bool {
    exists|steps: Seq<ContextView>, n: int| #[trigger]
        loads_run(plan, steps, args, n) && 0 <= n <= args.len() && steps[0] == before && (if n
            < args.len() {
            plan.failure(steps.last(), args[n]) == Some(e)
        } else {
            steps.last().ir.op(symbol) is None && e == PassErrorView::RewriteFailed(symbol)
        })
}

impl<T: TargetRegAlloc> RegisterAllocationPass<T> {
    /// Loads every incoming stack argument from where it lies, and records on the
    /// symbol where every value went: the operations the allocation decided
    /// about are untouched. A symbol that went with a placeholder cannot be
    /// recorded on.
    pub fn record(
        &self,
        context: &mut Context,
        symbol: OpId,
        r: &Allocation,
        assignment: &Vec<(u32, PhysReg)>,
        settled: &Settled,
    ) -> (done: Result<(), PassError>)
        requires
            old(context).inv(),
            old(context)@.has_room(settled.args@.len() as int),
            r.blocks@.len() > 0,
            settled.saves@.len() <= 0x3fff_ffff,
            arg_plan(*self, *r, assignment@, *settled).placed(
                old(context)@,
                arg_views(settled.args@),
            ),
        ensures
            final(context).inv(),
            match done {
                Ok(_) => records(
                    arg_plan(*self, *r, assignment@, *settled),
                    old(context)@,
                    final(context)@,
                    symbol,
                    arg_views(settled.args@),
                ),
                Err(e) => record_fails(
                    arg_plan(*self, *r, assignment@, *settled),
                    old(context)@,
                    symbol,
                    arg_views(settled.args@),
                    e@,
                ),
            },
    {
        let pushed: usize = settled.saves.len();
        match insert_incoming_stack_arg_loads(
            &self.target,
            &self.abi,
            context,
            r.blocks[0],
            assignment,
            &settled.args,
            &r.frame,
            settled.frame_size,
            pushed,
        ) {
            Ok(_) => {},
            Err(e) => {
                return Err(e);
            },
        }
        if !context.has_operation(symbol) {
            return Err(PassError::RewriteFailed(symbol));
        }
        record_assignment(context, symbol, assignment);
        Ok(())
    }
}

/// Whether every stack argument can be loaded: its placeholder stands, the register
/// it goes to was assigned, and its place can be measured.
fn all_placed(
    context: &Context,
    assignment: &Vec<(u32, PhysReg)>,
    args: &Vec<IncomingStackArg>,
) -> (r: bool)
    requires
        context.inv(),
    ensures
        r == args_placed(context@, assignment@, arg_views(args@)),
{
    let ghost views = arg_views(args@);
    let mut i: usize = 0;
    while i < args.len()
        invariant
            context.inv(),
            i <= args.len(),
            views == arg_views(args@),
            forall|k: int|
                0 <= k < i ==> arg_placed(context@, assignment@, #[trigger] views[k]),
        decreases args.len() - i,
    {
        let load = args[i].load;
        assert(views[i as int] == args@[i as int]@);
        let assigned = context.has_operation(load) && {
            let results = context.results_of(load);
            results.len() == 0 || get_entry(assignment, results[0].number()).is_some()
        };
        if !assigned || args[i].stack_index > 0x3fff_ffff {
            assert(!arg_placed(context@, assignment@, views[i as int]));
            return false;
        }
        i += 1;
    }
    true
}

impl<T: TargetRegAlloc> RegisterAllocationPass<T> {
    /// Whether settling took `before` to `after` and left `later` of the allocation.
    pub open spec fn settles(
        self,
        before: ContextView,
        after: ContextView,
        r: Allocation,
        later: Allocation,
        assignment: Seq<(u32, PhysReg)>,
        settled: Settled,
    ) -> bool {
        let list = listed(after, r.blocks@);
        &&& copies_settled(before, after, r.copies@, assignment)
        &&& later.blocks@ == r.blocks@
        &&& stack_arg_failure(after, list, list.len() as int) is None
        &&& r.framed_as(later.frame, settled, assignment, self.abi.callee_saved@)
        &&& settled.saves@.len() <= assignment.len()
        &&& arg_views(settled.args@) == stack_args_in(after, list, list.len() as int)
    }

    /// Whether what was settled can be recorded with the ids that are left.
    pub open spec fn recordable(
        self,
        context: ContextView,
        assignment: Seq<(u32, PhysReg)>,
        settled: Settled,
    ) -> bool {
        context.has_room(settled.args@.len() as int) && args_placed(
            context,
            assignment,
            arg_views(settled.args@),
        )
    }

    /// Whether a frame, where one is needed, can be put around the body with the ids
    /// that are left.
    pub open spec fn frameable(
        self,
        context: ContextView,
        machine: Machine,
        blocks: Seq<BlockId>,
        settled: Settled,
    ) -> bool {
        let code = self.frame_code(settled.frame_size, settled.saves@);
        let inside = entered(context, first_of(context, blocks), code.prologue);
        let exits = exits_of(inside, machine, blocks);
        settled.framing() ==> context.sound() && context.has_room(code.prologue.len() as int)
            && inside.has_room((exits.len() * code.epilogue.len()) as int)
    }

    /// Whether the frame, where one is needed, gave `r` and left `after`.
    pub open spec fn frames(
        self,
        before: ContextView,
        after: ContextView,
        machine: Machine,
        blocks: Seq<BlockId>,
        settled: Settled,
        r: Result<(), PassError>,
    ) -> bool {
        if settled.framing() {
            match self.framing_failure(
                before,
                machine,
                blocks,
                settled.frame_size,
                settled.saves@,
            ) {
                Some(e) => fails(r, e),
                None => r is Ok && after == self.framed(
                    before,
                    machine,
                    blocks,
                    settled.frame_size,
                    settled.saves@,
                ),
            }
        } else {
            r is Ok && after == before
        }
    }

    /// Whether an allocation ended with `done`, settled, recorded and framed in this
    /// order, and left `after`.
    pub open spec fn concludes(
        self,
        before: ContextView,
        after: ContextView,
        machine: Machine,
        symbol: OpId,
        r: Allocation,
        assignment: Seq<(u32, PhysReg)>,
        done: Option<Result<(), PassError>>,
    ) -> bool {
        ||| exists|mid: ContextView, e: PassErrorView|
            {
                let list = listed(mid, r.blocks@);
                &&& #[trigger] copies_settled(before, mid, r.copies@, assignment)
                &&& stack_arg_failure(mid, list, list.len() as int) == Some(e)
                &&& #[trigger] ends_with(done, e)
            }
        ||| exists|mid: ContextView, later: Allocation, settled: Settled|
            {
                &&& #[trigger] self.settles(before, mid, r, later, assignment, settled)
                &&& self.carried_on(mid, after, machine, symbol, later, assignment, settled, done)
            }
    }

    /// Whether what was settled is recorded and framed as `done` says.
    pub open spec fn carried_on(
        self,
        before: ContextView,
        after: ContextView,
        machine: Machine,
        symbol: OpId,
        r: Allocation,
        assignment: Seq<(u32, PhysReg)>,
        settled: Settled,
        done: Option<Result<(), PassError>>,
    ) -> bool {
        let plan = arg_plan(self, r, assignment, settled);
        let args = arg_views(settled.args@);
        if !self.recordable(before, assignment, settled) {
            done is None
        } else {
            ||| exists|e: PassErrorView|
                record_fails(plan, before, symbol, args, e) && #[trigger] ends_with(done, e)
            ||| exists|mid: ContextView| #[trigger]
                records(plan, before, mid, symbol, args) && match done {
                    Some(framed) => self.frames(
                        mid,
                        after,
                        machine,
                        r.blocks@,
                        settled,
                        framed,
                    ),
                    None => !self.frameable(mid, machine, r.blocks@, settled),
                }
        }
    }

    /// Ends an allocation every register of which has its place: settles it, records
    /// where values went, and puts a frame around the body where it needs one. `None`
    /// where the ids run out or a stack argument has no register.
    pub fn conclude(
        &self,
        context: &mut Context,
        machine: &Machine,
        symbol: OpId,
        r: &mut Allocation,
        assignment: &Vec<(u32, PhysReg)>,
    ) -> (done: Option<Result<(), PassError>>)
        requires
            old(context).inv(),
            old(context)@.values_sound(),
            old(r).blocks@.len() > 0,
            assignment@.len() <= 0x3fff_ffff,
            old(r).frame_fits(assignment@.len() as int),
        ensures
            final(context).inv(),
            self.concludes(
                old(context)@,
                final(context)@,
                *machine,
                symbol,
                *old(r),
                assignment@,
                done,
            ),
    {
        let settled = match self.settle(context, r, assignment) {
            Ok(settled) => settled,
            Err(e) => {
                assert(ends_with(Some(Err(e)), e@));
                assert(copies_settled(old(context)@, context@, old(r).copies@, assignment@));
                return Some(Err(e));
            },
        };
        let ghost mid = context@;
        assert(self.settles(old(context)@, mid, *old(r), *r, assignment@, settled));
        if !room_for(context, settled.args.len() as u64) || !all_placed(
            context,
            assignment,
            &settled.args,
        ) {
            assert(self.carried_on(
                mid,
                context@,
                *machine,
                symbol,
                *r,
                assignment@,
                settled,
                None,
            ));
            return None;
        }
        match self.record(context, symbol, r, assignment, &settled) {
            Ok(_) => {},
            Err(e) => {
                assert(ends_with(Some(Err(e)), e@));
                assert(self.carried_on(
                    mid,
                    context@,
                    *machine,
                    symbol,
                    *r,
                    assignment@,
                    settled,
                    Some(Err(e)),
                ));
                return Some(Err(e));
            },
        }
        let ghost recorded = context@;
        assert(records(
            arg_plan(*self, *r, assignment@, settled),
            mid,
            recorded,
            symbol,
            arg_views(settled.args@),
        ));
        let done = if !settled.needs_frame() {
            Some(Ok(()))
        } else if !context.is_sound() {
            None
        } else {
            self.insert_frame_in_room(
                context,
                machine,
                &r.blocks,
                settled.frame_size,
                &settled.saves,
            )
        };
        assert(self.carried_on(
            mid,
            context@,
            *machine,
            symbol,
            *r,
            assignment@,
            settled,
            done,
        ));
        done
    }
}

/// Whether an allocation ended by failing with `e`.
pub open spec fn ends_with(done: Option<Result<(), PassError>>, e: PassErrorView) -> bool {
    done is Some && fails(done->0, e)
}

} // verus!

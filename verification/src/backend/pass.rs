//! The register allocation pass.
//!
//! Runs on each `asm.symbol` op produced by instruction selection: it pre-colors
//! the calling convention's argument and return registers, solves an optimal
//! coloring, spills and retries when the optimum demands it, and finally records
//! where every value went in the symbol's assignment. What is live where, and
//! which coloring is cheapest, is worked out elsewhere: the pass is the steps
//! before the first round, one round, and the steps after the last.
use vstd::prelude::*;
use crate::attributes::drop_attribute;
use crate::attributes::named_views;
use crate::attributes::without_attribute;
use crate::attributes::AttrView;
use crate::attributes::NamedAttribute;
use crate::backend::abi::AbiInfo;
use crate::backend::allocas::address_classes;
use crate::backend::allocas::address_uses;
use crate::backend::allocas::alloca_erased;
use crate::backend::allocas::allocas_fit;
use crate::backend::allocas::allocas_of;
use crate::backend::allocas::class_failure;
use crate::backend::allocas::collect_stack_allocas;
use crate::backend::allocas::erase_stack_allocas;
use crate::backend::allocas::insert_all_before;
use crate::backend::allocas::inserted_before;
use crate::backend::allocas::inserting_mints_by_count;
use crate::backend::allocas::recompute_failure;
use crate::backend::allocas::recompute_fits;
use crate::backend::allocas::recomputed;
use crate::backend::allocas::rematerialize_stack_allocas;
use crate::backend::allocas::AddressUse;
use crate::backend::allocas::AllocaState;
use crate::backend::allocas::RematState;
use crate::backend::allocas::StackAlloca;
use crate::backend::classes::PhysReg;
use crate::backend::finish::collect_coalescable_copies;
use crate::backend::finish::copies_in;
use crate::backend::finish::copy_failure;
use crate::backend::finish::CoalescableCopy;
use crate::backend::frame::FramePlan;
use crate::backend::instructions::fails;
use crate::backend::instructions::room_for;
use crate::backend::instructions::InstructionView;
use crate::backend::instructions::PassError;
use crate::backend::instructions::PassErrorView;
use crate::backend::listing::counted_as;
use crate::backend::listing::listed;
use crate::backend::listing::listed_live;
use crate::backend::listing::listed_ops;
use crate::backend::listing::outgoing;
use crate::backend::listing::outgoing_stack_layout;
use crate::backend::listing::outgoing_too_large;
use crate::backend::listing::reference_counts;
use crate::backend::listing::references;
use crate::backend::lower::lower_failure;
use crate::backend::lower::lower_fixed_registers;
use crate::backend::lower::ops_lowered;
use crate::backend::lower::pin_count;
use crate::backend::lower::pinned_of;
use crate::backend::lower::precolor_views;
use crate::backend::lower::with_argument_pins;
use crate::backend::lower::LowerState;
use crate::backend::regalloc::picks;
use crate::backend::regalloc::problem_of;
use crate::backend::regalloc::reported;
use crate::backend::regalloc::round_failure;
use crate::backend::regalloc::AllocConfig;
use crate::backend::regalloc::AllocResult;
use crate::backend::regalloc::Liveness;
use crate::backend::regalloc::RegAllocError;
use crate::backend::regalloc::SpillCosts;
use crate::backend::registers::by_value;
use crate::backend::registers::entry_items;
use crate::backend::registers::spelled_assignment;
use crate::backend::registers::with_assigned;
use crate::backend::registers::Machine;
use crate::backend::registers::RegAssignment;
use crate::backend::spill::spill_all;
use crate::backend::spill::SpillPlan;
use crate::backend::spill::SpillState;
use crate::backend::target::class_views;
use crate::backend::target::reg_view;
use crate::backend::target::save_views;
use crate::backend::target::RegView;
use crate::backend::target::TargetRegAlloc;
use crate::context::kept::kept_blocks;
use crate::context::Context;
use crate::context::ContextView;
use crate::ids::BlockId;
use crate::ids::OpId;
use crate::ids::ValueId;
use crate::ir::copy_list;
use crate::ir::BodyView;
use crate::ir::RegionBody;

verus! {

/// The register allocation pass of a target under a calling convention.
pub struct RegisterAllocationPass<T: TargetRegAlloc> {
    pub target: T,
    pub abi: AbiInfo,
    /// Safety valve against a non-converging spill loop.
    pub max_rounds: usize,
}

/// An allocation under way.
#[derive(Debug)]
pub struct Allocation {
    pub blocks: Vec<BlockId>,
    /// The registers pinned to a physical register.
    pub precolor: Vec<(u32, PhysReg)>,
    pub copies: Vec<CoalescableCopy>,
    /// The ends of each copy.
    pub affinities: Vec<(u32, u32)>,
    pub frame: FramePlan,
    pub has_calls: bool,
}

impl ContextView {
    /// The blocks of a symbol's body, in program order.
    pub open spec fn body_blocks(self, symbol: OpId) -> Seq<BlockId> {
        let regions = self.ir.op(symbol)->0.regions;
        if regions.len() == 0 {
            Seq::empty()
        } else {
            match self.ir.region(regions[0])->0.body {
                BodyView::Blocks(blocks) => blocks,
                BodyView::Nodes(_, _, _) => Seq::empty(),
            }
        }
    }
}

/// The blocks of an `asm.symbol` op's body region, in program order.
pub fn symbol_body_blocks(context: &Context, symbol: OpId) -> (r: Vec<BlockId>)
    requires
        context.inv(),
        context@.sound(),
        context@.ir.op(symbol) is Some,
    ensures
        r@ == context@.body_blocks(symbol),
        context@.blocks_live(r@),
{
    assert(context@.op_sound(symbol));
    let regions = context.regions_of(symbol);
    if regions.len() == 0 {
        return Vec::new();
    }
    let region = regions[0];
    assert(context@.ir.region(context@.ir.op(symbol)->0.regions[0]) is Some);
    assert(context@.region_sound(region));
    match &context.region_ref(region).body {
        RegionBody::Blocks(blocks) => copy_list(blocks),
        RegionBody::Nodes { ports: _, ops: _, results: _ } => Vec::new(),
    }
}

/// The ends of each copy, source first.
pub open spec fn ends_of(copies: Seq<CoalescableCopy>) -> Seq<(u32, u32)> {
    copies.map_values(|c: CoalescableCopy| (c.src, c.dst))
}

fn copy_ends(copies: &Vec<CoalescableCopy>) -> (r: Vec<(u32, u32)>)
    ensures
        r@ == ends_of(copies@),
{
    let mut r: Vec<(u32, u32)> = Vec::new();
    let mut i: usize = 0;
    while i < copies.len()
        invariant
            i <= copies.len(),
            r@ =~= ends_of(copies@.take(i as int)),
        decreases copies.len() - i,
    {
        r.push((copies[i].src, copies[i].dst));
        assert(copies@.take(i + 1) =~= copies@.take(i as int).push(copies@[i as int]));
        i += 1;
    }
    assert(copies@.take(i as int) =~= copies@);
    r
}

/// A function before its first round, as the steps of preparation see it.
pub ghost struct Preparation<T: TargetRegAlloc> {
    pub target: T,
    pub abi: AbiInfo,
    pub machine: Machine,
    pub before: ContextView,
    pub symbol: OpId,
}

impl<T: TargetRegAlloc> Preparation<T> {
    pub open spec fn blocks(self) -> Seq<BlockId> {
        self.before.body_blocks(self.symbol)
    }

    pub open spec fn pinned(self) -> Seq<crate::backend::lower::PinnedView> {
        pinned_of(self.before, self.machine, self.blocks(), self.blocks().len() as int)
    }

    /// Once pins are point constraints.
    pub open spec fn lowered(self) -> LowerState {
        ops_lowered(
            self.target,
            LowerState { context: self.before, precolor: Seq::empty() },
            self.pinned(),
            self.pinned().len() as int,
        )
    }

    pub open spec fn lower_failure(self) -> Option<PassErrorView> {
        lower_failure(
            self.target,
            LowerState { context: self.before, precolor: Seq::empty() },
            self.pinned(),
            self.pinned().len() as int,
        )
    }

    /// What is pinned to a physical register.
    pub open spec fn precolor(self) -> Seq<(u32, RegView)> {
        let pins = spelled_assignment(self.lowered().context.attr(self.symbol, "arg_pins"@));
        with_argument_pins(self.lowered().precolor, pins, pins.len() as int)
    }

    /// The operations of the function then.
    pub open spec fn list(self) -> Seq<(BlockId, OpId)> {
        listed(self.lowered().context, self.blocks())
    }

    pub open spec fn outgoing(self) -> (u32, bool) {
        outgoing(self.lowered().context, self.machine, self.list(), self.list().len() as int)
    }

    /// The stack allocations, placed past the outgoing argument area.
    pub open spec fn allocas(self) -> AllocaState {
        allocas_of(
            self.lowered().context,
            self.list(),
            AllocaState { found: Seq::empty(), next_offset: self.outgoing().0 as i64 },
            self.list().len() as int,
        )
    }

    /// The uses of their addresses.
    pub open spec fn uses(self) -> Seq<AddressUse> {
        address_uses(
            self.lowered().context,
            self.list(),
            self.allocas().found,
            address_classes(
                self.lowered().context,
                self.machine,
                self.abi,
                self.blocks(),
                self.allocas().found,
            ),
            self.list().len() as int,
        )
    }

    /// Once every address is recomputed where it is used.
    pub open spec fn rematerialized(self) -> RematState {
        recomputed(
            self.target,
            RematState { context: self.lowered().context, temps: Seq::empty() },
            reg_view(self.abi.sp),
            self.uses(),
            self.uses().len() as int,
        )
    }

    pub open spec fn remat_failure(self) -> Option<PassErrorView> {
        let classes = class_failure(
            self.lowered().context,
            self.machine,
            self.abi,
            self.blocks(),
            self.allocas().found,
            self.allocas().found.len() as int,
        );
        match classes {
            Some(e) => Some(e),
            None => recompute_failure(
                self.target,
                RematState { context: self.lowered().context, temps: Seq::empty() },
                reg_view(self.abi.sp),
                self.uses(),
                self.uses().len() as int,
            ),
        }
    }

    /// Why the function cannot be prepared.
    pub open spec fn failure(self) -> Option<PassErrorView> {
        let context = self.lowered().context;
        let n = self.list().len() as int;
        if self.lower_failure() is Some {
            self.lower_failure()
        } else if copy_failure(context, self.list(), n) is Some {
            copy_failure(context, self.list(), n)
        } else if outgoing_too_large(context, self.machine, self.list(), n) {
            Some(PassErrorView::InvalidRuleSet("outgoing call frame exceeds 32-bit size"@))
        } else {
            self.remat_failure()
        }
    }

    /// Whether ids and offsets do not run out while it is prepared, and calls
    /// and stack allocations say what they need.
    pub open spec fn fits(self) -> bool {
        &&& self.before.has_room(pin_count(self.pinned(), self.pinned().len() as int) as int)
        &&& forall|i: int|
            0 <= i < self.list().len() && self.machine.is_call(
                self.lowered().context.identity((#[trigger] self.list()[i]).1),
            ) ==> self.lowered().context.uint_attr(
                self.list()[i].1,
                "outgoing_stack_size"@,
            ) is Some
        &&& allocas_fit(
            self.lowered().context,
            self.list(),
            AllocaState { found: Seq::empty(), next_offset: self.outgoing().0 as i64 },
            self.list().len() as int,
        )
        &&& recompute_fits(
            self.target,
            RematState { context: self.lowered().context, temps: Seq::empty() },
            reg_view(self.abi.sp),
            self.uses(),
            self.uses().len() as int,
        )
    }

    /// What a prepared function is allocated from.
    pub open spec fn allocation(self, r: Allocation) -> bool {
        &&& r.blocks@ == self.blocks()
        &&& precolor_views(r.precolor@) == self.precolor()
        &&& r.copies@ == copies_in(
            self.lowered().context,
            self.list(),
            self.list().len() as int,
        )
        &&& r.affinities@ == ends_of(r.copies@)
        &&& r.frame.align == self.abi.stack.align
        &&& r.frame.slot_size == self.abi.stack.slot_size
        &&& r.frame.save_style == self.abi.stack.save_style
        &&& r.frame.rounds == 0
        &&& r.frame.next_offset == self.allocas().next_offset
        &&& r.frame.temps@ == self.rematerialized().temps
        &&& r.has_calls == self.outgoing().1
    }
}

/// Whether a run of erasures leads from `before` to `after`.
pub open spec fn allocas_erased(
    before: ContextView,
    after: ContextView,
    allocas: Seq<StackAlloca>,
) -> bool {
    exists|steps: Seq<ContextView>|
        #![trigger steps.len()]
        steps.len() == allocas.len() + 1 && steps[0] == before && steps.last() == after && forall|
            i: int,
        |
            0 <= i < allocas.len() ==> alloca_erased(steps[i], steps[i + 1], #[trigger] allocas[i])
}

impl<T: TargetRegAlloc> RegisterAllocationPass<T> {
    /// The pass of a target under a calling convention.
    pub fn with_abi(target: T, abi: AbiInfo) -> (r: Self)
        ensures
            r.target == target,
            r.abi == abi,
            r.max_rounds == 16,
    {
        RegisterAllocationPass { target, abi, max_rounds: 16 }
    }

    /// What comes before the first round: pins become point constraints, the
    /// copies that may be coalesced are noted, the outgoing argument area and
    /// the stack allocations get their place, and every stack address is
    /// recomputed where it is used. A symbol without a body needs no
    /// allocation.
    pub fn prepare(&self, context: &mut Context, machine: &Machine, symbol: OpId) -> (r: Result<
        Option<Allocation>,
        PassError,
    >)
        requires
            old(context).inv(),
            old(context)@.sound(),
            old(context)@.ir.op(symbol) is Some,
            old(context)@.body_blocks(symbol).len() > 0 ==> (Preparation {
                target: self.target,
                abi: self.abi,
                machine: *machine,
                before: old(context)@,
                symbol,
            }).fits(),
        ensures
            final(context).inv(),
            ({
                let p = Preparation {
                    target: self.target,
                    abi: self.abi,
                    machine: *machine,
                    before: old(context)@,
                    symbol,
                };
                if p.blocks().len() == 0 {
                    r is Ok && r->Ok_0 is None && final(context)@ == old(context)@
                } else {
                    match p.failure() {
                        Some(e) => fails(r, e),
                        None => r is Ok && r->Ok_0 is Some && p.allocation(r->Ok_0->0)
                            && allocas_erased(
                            p.rematerialized().context,
                            final(context)@,
                            p.allocas().found,
                        ),
                    }
                }
            }),
    {
        let ghost p = Preparation {
            target: self.target,
            abi: self.abi,
            machine: *machine,
            before: context@,
            symbol,
        };
        let blocks = symbol_body_blocks(context, symbol);
        if blocks.len() == 0 {
            return Ok(None);
        }
        let precolor = match lower_fixed_registers(
            &self.target,
            context,
            machine,
            symbol,
            &blocks,
        ) {
            Ok(precolor) => precolor,
            Err(e) => {
                return Err(e);
            },
        };
        assert(context@ == p.lowered().context);
        proof {
            kept_blocks(p.before, context@, blocks@);
            assert forall|id: ValueId| #[trigger] context@.value_sound(id) by {}
        }
        let list = listed_ops(context, &blocks);
        assert(list@ == p.list());
        let copies = match collect_coalescable_copies(context, &list) {
            Ok(copies) => copies,
            Err(e) => {
                return Err(e);
            },
        };
        let affinities = copy_ends(&copies);
        let (size, has_calls) = match outgoing_stack_layout(context, machine, &list) {
            Ok(layout) => layout,
            Err(e) => {
                return Err(e);
            },
        };
        let mut frame = FramePlan::new(&self.abi);
        frame.reserve_outgoing(size);
        let allocas = collect_stack_allocas(context, &list, &mut frame);
        assert(allocas@ == p.allocas().found);
        assert(frame.temps@ =~= Seq::<u32>::empty());
        match rematerialize_stack_allocas(
            &self.target,
            &self.abi,
            context,
            machine,
            &blocks,
            &list,
            &allocas,
            &mut frame,
        ) {
            Ok(_) => {},
            Err(e) => {
                return Err(e);
            },
        }
        assert(context@ == p.rematerialized().context);
        erase_stack_allocas(context, &allocas);
        Ok(Some(Allocation { blocks, precolor, copies, affinities, frame, has_calls }))
    }
}

/// How often each register of an allocation under way is named.
pub open spec fn named_often(context: ContextView, blocks: Seq<BlockId>) -> spec_fn(u32) -> nat {
    let list = listed(context, blocks);
    |vreg: u32| references(context, list, vreg, list.len() as int)
}

/// What spilling costs in a round: a temporary of an earlier round is not
/// spilled again, and another register costs more the more it is named.
pub open spec fn round_costs(context: ContextView, r: Allocation, costs: SpillCosts) -> bool {
    costs.protected@ == r.frame.temps@ && counted_as(
        costs.references@,
        named_often(context, r.blocks@),
    )
}

/// Whether the choices of a solver are choices of the problem.
pub fn all_picked(
    problem: &crate::backend::regalloc::AllocationProblem,
    choices: &Vec<usize>,
) -> (r: bool)
    requires
        problem@.alternatives.len() == problem@.vregs.len(),
    ensures
        r == picks(problem@, choices@),
{
    if choices.len() != problem.vregs.len() {
        return false;
    }
    let mut i: usize = 0;
    while i < choices.len()
        invariant
            i <= choices.len(),
            choices.len() == problem.vregs.len(),
            problem@.alternatives.len() == problem@.vregs.len(),
            forall|k: int|
                0 <= k < i ==> (#[trigger] choices@[k]) < problem@.alternatives[k].len(),
        decreases choices.len() - i,
    {
        assert(problem@.alternatives[i as int] == problem.alternatives@[i as int]@);
        if choices[i] >= problem.alternatives[i].len() {
            assert(!(choices@[i as int] < problem@.alternatives[i as int].len()));
            return false;
        }
        i += 1;
    }
    true
}

impl<T: TargetRegAlloc> RegisterAllocationPass<T> {
    /// The problem one round poses. The least-used register is the cheapest to
    /// spill. Reload and store temporaries are unspillable: they have
    /// single-instruction ranges and must occupy a register, so forcing a
    /// longer-lived value to spill instead is what actually relieves pressure
    /// and lets the spill loop converge.
    pub fn round_problem(&self, context: &Context, r: &Allocation, liveness: &Liveness) -> (p: Result<
        crate::backend::regalloc::AllocationProblem,
        PassError,
    >)
        requires
            context.inv(),
            context@.values_sound(),
            forall|vreg: u32|
                #![trigger named_often(context@, r.blocks@)(vreg)]
                named_often(context@, r.blocks@)(vreg) <= u32::MAX,
        ensures
            exists|info: crate::backend::abi::RegisterInfo, costs: SpillCosts|
                #![trigger round_failure(
                    AllocConfig {
                        info: &info,
                        abi: &self.abi,
                        liveness,
                        precolor: &r.precolor,
                        spill_cost: &costs,
                    },
                )]
                class_views(info.classes@) == self.target.classes() && round_costs(
                    context@,
                    *r,
                    costs,
                ) && ({
                    let config = AllocConfig {
                        info: &info,
                        abi: &self.abi,
                        liveness,
                        precolor: &r.precolor,
                        spill_cost: &costs,
                    };
                    match round_failure(config) {
                        Some(e) => fails(p, PassErrorView::InvalidRuleSet(reported(e))),
                        None => p is Ok && p->Ok_0@ == problem_of(config, r.affinities@),
                    }
                }),
    {
        let list = listed_ops(context, &r.blocks);
        proof {
            assert forall|vreg: u32| #[trigger]
                references(context@, list@, vreg, list@.len() as int) <= u32::MAX by {
                assert(named_often(context@, r.blocks@)(vreg) <= u32::MAX);
            }
        }
        let counts = reference_counts(context, &list);
        let ghost f = |vreg: u32| references(context@, list@, vreg, list@.len() as int);
        let ghost g = named_often(context@, r.blocks@);
        assert(counted_as(counts@, g)) by {
            assert forall|vreg: u32| #![trigger crate::backend::tables::entry(counts@, vreg)]
                crate::backend::tables::entry(counts@, vreg) == if g(vreg) > 0 {
                    Some(g(vreg) as u32)
                } else {
                    None
                } by {
                assert(f(vreg) == g(vreg));
            }
        }
        let info = self.target.register_info();
        let costs = SpillCosts { protected: copy_list(&r.frame.temps), references: counts };
        let config = AllocConfig {
            info: &info,
            abi: &self.abi,
            liveness,
            precolor: &r.precolor,
            spill_cost: &costs,
        };
        assert(round_costs(context@, *r, costs));
        match crate::backend::regalloc::allocation_problem(&config, &r.affinities) {
            Ok(problem) => Ok(problem),
            Err(e) => Err(PassError::InvalidRuleSet(e.report())),
        }
    }

    /// What follows a solver's answer: either every register has its place, or
    /// those it would spill are spilled and another round is due. A solver that has
    /// no answer says why.
    pub fn advance(
        &self,
        context: &mut Context,
        r: &mut Allocation,
        liveness: &Liveness,
        problem: &crate::backend::regalloc::AllocationProblem,
        solution: Result<Vec<usize>, String>,
    ) -> (done: Result<Option<Vec<(u32, PhysReg)>>, PassError>)
        requires
            old(context).inv(),
            problem@.alternatives.len() == problem@.vregs.len(),
            solution is Ok ==> picks(problem@, solution->Ok_0@),
            solution is Ok ==> ({
                let n = problem@.vregs.len() as int;
                let left = crate::backend::regalloc::spilled(problem@, solution->Ok_0@, n);
                left.len() > 0 && old(r).frame.rounds < self.max_rounds ==> (SpillPlan {
                    target: self.target,
                    abi: self.abi,
                    liveness: *liveness,
                    blocks: old(r).blocks@,
                    slot_size: old(r).frame.slot_size,
                }).fits(
                    SpillState {
                        context: old(context)@,
                        next_offset: old(r).frame.next_offset,
                        temps: old(r).frame.temps@,
                    },
                    left,
                    left.len() as int,
                )
            }),
        ensures
            final(context).inv(),
            final(r).blocks@ == old(r).blocks@,
            final(r).precolor@ == old(r).precolor@,
            final(r).copies@ == old(r).copies@,
            final(r).affinities@ == old(r).affinities@,
            final(r).has_calls == old(r).has_calls,
            match solution {
                Err(message) => fails(
                    done,
                    PassErrorView::InvalidRuleSet(reported(RegAllocError::Solver(message))),
                ),
                Ok(choices) => {
                    let n = problem@.vregs.len() as int;
                    let left = crate::backend::regalloc::spilled(problem@, choices@, n);
                    let plan = SpillPlan {
                        target: self.target,
                        abi: self.abi,
                        liveness: *liveness,
                        blocks: old(r).blocks@,
                        slot_size: old(r).frame.slot_size,
                    };
                    let state = SpillState {
                        context: old(context)@,
                        next_offset: old(r).frame.next_offset,
                        temps: old(r).frame.temps@,
                    };
                    if left.len() == 0 {
                        done is Ok && done->Ok_0 is Some && done->Ok_0->0@
                            == crate::backend::regalloc::assigned(problem@, choices@, n)
                            && final(context)@ == old(context)@ && *final(r) == *old(r)
                    } else if old(r).frame.rounds >= self.max_rounds {
                        fails(
                            done,
                            PassErrorView::InvalidRuleSet(
                                "register allocation did not converge while spilling"@,
                            ),
                        )
                    } else {
                        match plan.failure_of(state, left, left.len() as int) {
                            Some(e) => fails(done, e),
                            None => done is Ok && done->Ok_0 is None && final(r).frame.rounds
                                == old(r).frame.rounds + 1 && plan.after_all(
                                state,
                                left,
                                left.len() as int,
                            ) == (SpillState {
                                context: final(context)@,
                                next_offset: final(r).frame.next_offset,
                                temps: final(r).frame.temps@,
                            }),
                        }
                    }
                },
            },
    {
        let choices = match solution {
            Ok(choices) => choices,
            Err(message) => {
                return Err(PassError::InvalidRuleSet(RegAllocError::Solver(message).report()));
            },
        };
        match crate::backend::regalloc::read_choices(problem, &choices) {
            AllocResult::Assigned(map) => Ok(Some(map)),
            AllocResult::Spill(vregs) => {
                if r.frame.rounds >= self.max_rounds {
                    return Err(
                        PassError::InvalidRuleSet(
                            "register allocation did not converge while spilling".to_owned(),
                        ),
                    );
                }
                r.frame.rounds = r.frame.rounds + 1;
                match spill_all(
                    &self.target,
                    &self.abi,
                    context,
                    liveness,
                    &r.blocks,
                    &vregs,
                    &mut r.frame,
                ) {
                    Ok(_) => Ok(None),
                    Err(e) => Err(e),
                }
            },
        }
    }
}

/// With every one of the first `n` of `sites` preceded by `list`.
pub open spec fn preceded(
    context: ContextView,
    sites: Seq<(BlockId, OpId)>,
    list: Seq<InstructionView>,
    n: int,
) -> ContextView
    decreases n,
{
    if n <= 0 {
        context
    } else {
        inserted_before(
            preceded(context, sites, list, n - 1),
            sites[n - 1].0,
            sites[n - 1].1,
            list,
            list.len() as int,
        )
    }
}

/// Why the first of the first `n` of `sites` cannot be preceded by `list`.
pub open spec fn precede_failure(
    context: ContextView,
    sites: Seq<(BlockId, OpId)>,
    list: Seq<InstructionView>,
    n: int,
) -> Option<PassErrorView>
    decreases n,
{
    if n <= 0 {
        None
    } else {
        match precede_failure(context, sites, list, n - 1) {
            Some(e) => Some(e),
            None => if list.len() > 0 && preceded(context, sites, list, n - 1).position_in(
                sites[n - 1].0,
                sites[n - 1].1,
            ) is None {
                Some(PassErrorView::RewriteFailed(sites[n - 1].1))
            } else {
                None
            },
        }
    }
}

proof fn precede_failure_stays(
    context: ContextView,
    sites: Seq<(BlockId, OpId)>,
    list: Seq<InstructionView>,
    n: int,
    m: int,
)
    requires
        0 < n <= m,
        precede_failure(context, sites, list, n) is Some,
    ensures
        precede_failure(context, sites, list, m) == precede_failure(context, sites, list, n),
    decreases m - n,
{
    if n < m {
        precede_failure_stays(context, sites, list, n, m - 1);
    }
}

proof fn preceding_mints_by_site(
    context: ContextView,
    sites: Seq<(BlockId, OpId)>,
    list: Seq<InstructionView>,
    n: int,
)
    requires
        0 <= n,
        precede_failure(context, sites, list, n) is None,
    ensures
        preceded(context, sites, list, n).ir.ops.now.len() == context.ir.ops.now.len() + n
            * list.len(),
        preceded(context, sites, list, n).names.len() <= context.names.len() + n * list.len(),
        preceded(context, sites, list, n).ir.values.now.len() == context.ir.values.now.len(),
        preceded(context, sites, list, n).types == context.types,
    decreases n,
{
    if n > 0 {
        preceding_mints_by_site(context, sites, list, n - 1);
        assert(n * list.len() == (n - 1) * list.len() + list.len()) by (nonlinear_arith);
        if list.len() > 0 {
            inserting_mints_by_count(
                preceded(context, sites, list, n - 1),
                sites[n - 1].0,
                sites[n - 1].1,
                list,
                list.len() as int,
            );
        }
    } else {
        assert(0 * list.len() == 0) by (nonlinear_arith);
    }
}

/// The code of a frame around a function body.
pub ghost struct FrameCode {
    pub prologue: Seq<InstructionView>,
    pub epilogue: Seq<InstructionView>,
}

impl<T: TargetRegAlloc> RegisterAllocationPass<T> {
    /// What reserves and releases a frame of `size` bytes.
    pub open spec fn frame_code(self, size: u32, saves: Seq<(PhysReg, i64)>) -> FrameCode {
        FrameCode {
            prologue: self.target.prologue(self.abi, size, save_views(saves)),
            epilogue: self.target.epilogue(self.abi, size, save_views(saves)),
        }
    }
}

/// With a prologue at the top of the entry block, where it holds anything.
pub open spec fn entered(
    context: ContextView,
    first: Option<(BlockId, OpId)>,
    prologue: Seq<InstructionView>,
) -> ContextView {
    match first {
        Some((block, op)) => inserted_before(context, block, op, prologue, prologue.len() as int),
        None => context,
    }
}

/// The first operation of the entry block.
pub open spec fn first_of(context: ContextView, blocks: Seq<BlockId>) -> Option<(BlockId, OpId)> {
    if blocks.len() == 0 || context.ir.block(blocks[0]) is None {
        None
    } else {
        let operations = context.ir.block(blocks[0])->0.operations;
        if operations.len() == 0 {
            None
        } else {
            Some((blocks[0], operations[0]))
        }
    }
}

fn first_op(context: &Context, blocks: &Vec<BlockId>) -> (r: Option<(BlockId, OpId)>)
    requires
        context.inv(),
    ensures
        r == first_of(context@, blocks@),
{
    if blocks.len() == 0 || !context.has_block(blocks[0]) {
        return None;
    }
    let operations = &context.block_ref(blocks[0]).operations;
    if operations.len() == 0 {
        None
    } else {
        Some((blocks[0], operations[0]))
    }
}

/// The returns among the first `n` of `list`.
pub open spec fn exits_in(
    context: ContextView,
    machine: Machine,
    list: Seq<(BlockId, OpId)>,
    n: int,
) -> Seq<(BlockId, OpId)>
    decreases n,
{
    if n <= 0 {
        Seq::empty()
    } else {
        let before = exits_in(context, machine, list, n - 1);
        if machine.is_return(context.identity(list[n - 1].1)) {
            before.push(list[n - 1])
        } else {
            before
        }
    }
}

/// The returns of a function.
pub open spec fn exits_of(
    context: ContextView,
    machine: Machine,
    blocks: Seq<BlockId>,
) -> Seq<(BlockId, OpId)> {
    let list = listed(context, blocks);
    exits_in(context, machine, list, list.len() as int)
}

fn collect_exits(context: &Context, machine: &Machine, blocks: &Vec<BlockId>) -> (r: Vec<
    (BlockId, OpId),
>)
    requires
        context.inv(),
        context@.sound(),
    ensures
        r@ == exits_of(context@, *machine, blocks@),
{
    let list = listed_ops(context, blocks);
    let mut r: Vec<(BlockId, OpId)> = Vec::new();
    let mut i: usize = 0;
    while i < list.len()
        invariant
            context.inv(),
            context@.sound(),
            crate::backend::listing::listed_live(context@, list@),
            i <= list.len(),
            r@ =~= exits_in(context@, *machine, list@, i as int),
        decreases list.len() - i,
    {
        let (block, op) = list[i];
        assert(context@.ir.op(list@[i as int].1) is Some);
        assert(context@.op_sound(op));
        let (dialect, name) = context.op_identity(op);
        if machine.leaves(dialect, name) {
            r.push((block, op));
        }
        i += 1;
    }
    r
}

/// Why a frame cannot be put around a body.
pub open spec fn frame_failure(
    context: ContextView,
    first: Option<(BlockId, OpId)>,
    exits: Seq<(BlockId, OpId)>,
    code: FrameCode,
) -> Option<PassErrorView> {
    if first is Some && code.prologue.len() > 0 && context.position_in(
        first.unwrap().0,
        first.unwrap().1,
    ) is None {
        Some(PassErrorView::RewriteFailed(first.unwrap().1))
    } else {
        precede_failure(
            entered(context, first, code.prologue),
            exits,
            code.epilogue,
            exits.len() as int,
        )
    }
}

impl<T: TargetRegAlloc> RegisterAllocationPass<T> {
    /// Why a frame cannot be put around the body `blocks` are.
    pub open spec fn framing_failure(
        self,
        context: ContextView,
        machine: Machine,
        blocks: Seq<BlockId>,
        size: u32,
        saves: Seq<(PhysReg, i64)>,
    ) -> Option<PassErrorView> {
        let code = self.frame_code(size, saves);
        let first = first_of(context, blocks);
        let exits = exits_of(entered(context, first, code.prologue), machine, blocks);
        frame_failure(context, first, exits, code)
    }

    /// With a frame around the body `blocks` are.
    pub open spec fn framed(
        self,
        context: ContextView,
        machine: Machine,
        blocks: Seq<BlockId>,
        size: u32,
        saves: Seq<(PhysReg, i64)>,
    ) -> ContextView {
        let code = self.frame_code(size, saves);
        let inside = entered(context, first_of(context, blocks), code.prologue);
        let exits = exits_of(inside, machine, blocks);
        preceded(inside, exits, code.epilogue, exits.len() as int)
    }

    /// How many instructions that frame is made of.
    pub open spec fn frame_length(
        self,
        context: ContextView,
        machine: Machine,
        blocks: Seq<BlockId>,
        size: u32,
        saves: Seq<(PhysReg, i64)>,
    ) -> int {
        let code = self.frame_code(size, saves);
        let inside = entered(context, first_of(context, blocks), code.prologue);
        code.prologue.len() + exits_of(inside, machine, blocks).len() * code.epilogue.len() as int
    }

    fn open_frame(
        &self,
        context: &mut Context,
        blocks: &Vec<BlockId>,
        size: u32,
        saves: &Vec<(PhysReg, i64)>,
    ) -> (r: Result<(), PassError>)
        requires
            old(context).inv(),
            old(context)@.sound(),
            old(context)@.has_room(self.frame_code(size, saves@).prologue.len() as int),
        ensures
            final(context).inv(),
            ({
                let prologue = self.frame_code(size, saves@).prologue;
                let first = first_of(old(context)@, blocks@);
                if first is Some && prologue.len() > 0 && old(context)@.position_in(
                    first.unwrap().0,
                    first.unwrap().1,
                ) is None {
                    fails(r, PassErrorView::RewriteFailed(first.unwrap().1))
                } else {
                    &&& r is Ok
                    &&& final(context)@ == entered(old(context)@, first, prologue)
                    &&& final(context)@.sound()
                    &&& forall|n: int|
                        #![trigger final(context)@.has_room(n)]
                        old(context)@.has_room(prologue.len() + n) ==> final(context)@.has_room(n)
                }
            }),
    {
        let ghost code = self.frame_code(size, saves@);
        let ghost before = context@;
        let first = first_op(context, blocks);
        if let Some((block, op)) = first {
            let prologue = self.target.emit_prologue(&self.abi, size, saves);
            match insert_all_before(context, block, op, prologue) {
                Ok(_) => {},
                Err(e) => {
                    return Err(e);
                },
            }
            proof {
                if code.prologue.len() > 0 {
                    inserting_mints_by_count(
                        before,
                        block,
                        op,
                        code.prologue,
                        code.prologue.len() as int,
                    );
                }
            }
        }
        assert(context@ == entered(before, first, code.prologue));
        Ok(())
    }

    fn close_frame(
        &self,
        context: &mut Context,
        exits: &Vec<(BlockId, OpId)>,
        size: u32,
        saves: &Vec<(PhysReg, i64)>,
    ) -> (r: Result<(), PassError>)
        requires
            old(context).inv(),
            old(context)@.sound(),
            old(context)@.has_room(
                (exits@.len() * self.frame_code(size, saves@).epilogue.len()) as int,
            ),
        ensures
            final(context).inv(),
            ({
                let epilogue = self.frame_code(size, saves@).epilogue;
                let n = exits@.len() as int;
                match precede_failure(old(context)@, exits@, epilogue, n) {
                    Some(e) => fails(r, e),
                    None => r is Ok && final(context)@ == preceded(
                        old(context)@,
                        exits@,
                        epilogue,
                        n,
                    ),
                }
            }),
    {
        let ghost code = self.frame_code(size, saves@);
        let ghost inside = context@;
        let mut i: usize = 0;
        while i < exits.len()
            invariant
                i <= exits.len(),
                context.inv(),
                code == self.frame_code(size, saves@),
                inside == old(context)@,
                inside.has_room((exits@.len() * code.epilogue.len()) as int),
                precede_failure(inside, exits@, code.epilogue, i as int) is None,
                context@ == preceded(inside, exits@, code.epilogue, i as int),
            decreases exits.len() - i,
        {
            let (block, op) = exits[i];
            let epilogue = self.target.emit_epilogue(&self.abi, size, saves);
            proof {
                preceding_mints_by_site(inside, exits@, code.epilogue, i as int);
                assert(i * code.epilogue.len() + code.epilogue.len() <= exits@.len()
                    * code.epilogue.len()) by (nonlinear_arith)
                    requires
                        i < exits@.len(),
                ;
            }
            match insert_all_before(context, block, op, epilogue) {
                Ok(_) => {},
                Err(e) => {
                    proof {
                        precede_failure_stays(
                            inside,
                            exits@,
                            code.epilogue,
                            i + 1,
                            exits@.len() as int,
                        );
                    }
                    return Err(e);
                },
            }
            i += 1;
        }
        Ok(())
    }

    /// Inserts the prologue at the entry block's top and an epilogue before
    /// every return, once the frame size and callee-saved set are known.
    pub fn insert_frame(
        &self,
        context: &mut Context,
        machine: &Machine,
        blocks: &Vec<BlockId>,
        size: u32,
        saves: &Vec<(PhysReg, i64)>,
    ) -> (r: Result<(), PassError>)
        requires
            old(context).inv(),
            old(context)@.sound(),
            old(context)@.has_room(
                self.frame_length(old(context)@, *machine, blocks@, size, saves@),
            ),
        ensures
            final(context).inv(),
            match self.framing_failure(old(context)@, *machine, blocks@, size, saves@) {
                Some(e) => fails(r, e),
                None => r is Ok && final(context)@ == self.framed(
                    old(context)@,
                    *machine,
                    blocks@,
                    size,
                    saves@,
                ),
            },
    {
        let ghost code = self.frame_code(size, saves@);
        let ghost inside = entered(context@, first_of(context@, blocks@), code.prologue);
        let ghost rest = exits_of(inside, *machine, blocks@).len() * code.epilogue.len() as int;
        proof {
            assert(0 <= rest) by (nonlinear_arith)
                requires
                    rest == exits_of(inside, *machine, blocks@).len() * code.epilogue.len() as int,
            ;
        }
        match self.open_frame(context, blocks, size, saves) {
            Ok(_) => {},
            Err(e) => {
                return Err(e);
            },
        }
        assert(context@.has_room(rest));
        let exits = collect_exits(context, machine, blocks);
        self.close_frame(context, &exits, size, saves)
    }

    /// Inserts the frame where there are ids left for it. `None` where there are
    /// not, in which case the prologue may stand alone.
    pub fn insert_frame_in_room(
        &self,
        context: &mut Context,
        machine: &Machine,
        blocks: &Vec<BlockId>,
        size: u32,
        saves: &Vec<(PhysReg, i64)>,
    ) -> (r: Option<Result<(), PassError>>)
        requires
            old(context).inv(),
            old(context)@.sound(),
        ensures
            final(context).inv(),
            ({
                let code = self.frame_code(size, saves@);
                let inside = entered(
                    old(context)@,
                    first_of(old(context)@, blocks@),
                    code.prologue,
                );
                let exits = exits_of(inside, *machine, blocks@);
                match r {
                    None => !old(context)@.has_room(code.prologue.len() as int)
                        || !inside.has_room((exits.len() * code.epilogue.len()) as int),
                    Some(done) => match self.framing_failure(
                        old(context)@,
                        *machine,
                        blocks@,
                        size,
                        saves@,
                    ) {
                        Some(e) => fails(done, e),
                        None => done is Ok && final(context)@ == self.framed(
                            old(context)@,
                            *machine,
                            blocks@,
                            size,
                            saves@,
                        ),
                    },
                }
            }),
    {
        let ghost code = self.frame_code(size, saves@);
        let prologue = self.target.emit_prologue(&self.abi, size, saves);
        if !room_for(context, prologue.len() as u64) {
            return None;
        }
        match self.open_frame(context, blocks, size, saves) {
            Ok(_) => {},
            Err(e) => {
                return Some(Err(e));
            },
        }
        let exits = collect_exits(context, machine, blocks);
        let epilogue = self.target.emit_epilogue(&self.abi, size, saves);
        proof {
            let (a, b) = (exits.len() as int, epilogue.len() as int);
            assert(0 <= a * b <= u128::MAX) by (nonlinear_arith)
                requires
                    0 <= a <= u64::MAX,
                    0 <= b <= u64::MAX,
            ;
        }
        let need: u128 = exits.len() as u128 * epilogue.len() as u128;
        if need > u32::MAX as u128 || !room_for(context, need as u64) {
            return None;
        }
        Some(self.close_frame(context, &exits, size, saves))
    }
}

/// The entries of an allocation whose value the function still names, of the
/// first `n`.
pub open spec fn kept_entries(
    context: ContextView,
    assignment: Seq<(u32, PhysReg)>,
    n: int,
) -> Seq<(ValueId, RegView)>
    decreases n,
{
    if n <= 0 {
        Seq::empty()
    } else {
        let before = kept_entries(context, assignment, n - 1);
        let (vreg, register) = assignment[n - 1];
        if context.ir.value(ValueId(vreg)) is Some {
            with_assigned(before, ValueId(vreg), reg_view(register))
        } else {
            before
        }
    }
}

/// Whether `after` is `before` with the assignment recorded on the symbol, in
/// place of the pins of its arguments.
pub open spec fn recorded_on(
    before: ContextView,
    after: ContextView,
    symbol: OpId,
    assignment: Seq<(u32, PhysReg)>,
) -> bool {
    exists|entries: Seq<(ValueId, RegView)>| #[trigger]
        by_value(entries) && entries.to_multiset() == kept_entries(
            before,
            assignment,
            assignment.len() as int,
        ).to_multiset() && after == before.with_op_attributes(
            symbol,
            without_attribute(before.ir.op(symbol)->0.attributes, "arg_pins"@).push(
                ("assignment"@, AttrView::Array(entry_items(entries))),
            ),
        )
}

/// Records on a symbol where every value went. Coalescing and spilling retire
/// values; the map describes the ones the function still names.
pub fn record_assignment(
    context: &mut Context,
    symbol: OpId,
    assignment: &Vec<(u32, PhysReg)>,
)
    requires
        old(context).inv(),
        old(context)@.ir.op(symbol) is Some,
    ensures
        final(context).inv(),
        recorded_on(old(context)@, final(context)@, symbol, assignment@),
{
    let mut map = RegAssignment::new();
    let mut i: usize = 0;
    while i < assignment.len()
        invariant
            context.inv(),
            i <= assignment.len(),
            map@ == kept_entries(context@, assignment@, i as int),
        decreases assignment.len() - i,
    {
        let (vreg, register) = assignment[i];
        if context.has_value(ValueId(vreg)) {
            map.insert(ValueId(vreg), register);
        }
        i += 1;
    }
    let ghost before = context@;
    let value = map.to_attribute();
    let ghost entries = choose|entries: Seq<(ValueId, RegView)>| #[trigger]
        by_value(entries) && entries.to_multiset() == map@.to_multiset() && value@
            == AttrView::Array(entry_items(entries));
    let mut attributes = drop_attribute(&context.op_attributes(symbol), "arg_pins");
    let ghost held = named_views(attributes@);
    let named = NamedAttribute::new("assignment", value);
    let ghost added = named@;
    attributes.push(named);
    assert(named_views(attributes@) =~= held.push(added));
    context.set_op_attributes(symbol, attributes);
    assert(by_value(entries));
}

} // verus!

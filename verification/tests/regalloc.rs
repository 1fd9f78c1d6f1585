//! Allocating the registers of a small function, round by round.
use tir::attributes::AttributeValue;
use tir::backend::abi::{AbiInfo, RegisterInfo, SaveStyle, StackInfo};
use tir::backend::classes::{ClassView, PhysReg, RegClassId, RegClassInfo, RegisterView};
use tir::backend::instructions::{Instruction, InstructionView, PassError, PassErrorView};
use tir::backend::listing::block_successors;
use tir::backend::pass::{all_picked, RegisterAllocationPass};
use tir::backend::frame::FramePlan;
use tir::backend::regalloc::{
    allocation_problem, resolve_class, AllocConfig, AllocationProblem, Liveness, RegAllocError,
    SpillCost,
};
use tir::backend::registers::{InstrInfo, Machine, RegAssignment, RegPort, RegSlot, SlotKind};
use tir::backend::shuffle_order::{blocks_to_shuffle, reorder};
use tir::backend::target::{
    no_frame_address, no_frame_code, ClassesView, CodeView, RegView, SavesView, TargetRegAlloc,
};
use tir::builder::OpBuilder;
use tir::context::Context;
use tir::ids::{BlockId, OpId, ValueId};
use tir::ty::{RegClassType, Type};

struct Toy {
    class: RegClassId,
}

fn instruction(name: &'static str, operands: Vec<ValueId>, results: Vec<ValueId>) -> Instruction {
    Instruction { dialect: "toy", name, operands, results, attributes: vec![] }
}

impl TargetRegAlloc for Toy {
    fn classes(&self) -> ClassesView {
        unreachable!()
    }

    fn spill_store(&self, _: ValueId, _: ClassView, _: RegView, _: i64) -> InstructionView {
        unreachable!()
    }

    fn spill_reload(&self, _: ValueId, _: ClassView, _: RegView, _: i64) -> InstructionView {
        unreachable!()
    }

    fn copy(&self, _: ClassView, _: SlotKind, _: SlotKind) -> InstructionView {
        unreachable!()
    }

    fn prologue(&self, _: AbiInfo, _: u32, _: SavesView) -> CodeView {
        unreachable!()
    }

    fn epilogue(&self, _: AbiInfo, _: u32, _: SavesView) -> CodeView {
        unreachable!()
    }

    fn frame_address(
        &self,
        _: ValueId,
        _: ClassView,
        _: RegView,
        _: i64,
    ) -> Result<CodeView, PassErrorView> {
        unreachable!()
    }

    fn register_info(&self) -> RegisterInfo {
        RegisterInfo { classes: vec![self.class] }
    }

    fn emit_spill_store(&self, value: ValueId, _: RegClassId, _: &PhysReg, _: i64) -> Instruction {
        instruction("sw", vec![value], vec![])
    }

    fn emit_spill_reload(&self, value: ValueId, _: RegClassId, _: &PhysReg, _: i64) -> Instruction {
        instruction("lw", vec![], vec![value])
    }

    fn emit_copy(&self, _: RegClassId, _: RegSlot, _: RegSlot) -> Instruction {
        instruction("mv", vec![], vec![])
    }

    fn emit_prologue(&self, _: &AbiInfo, _: u32, _: &Vec<(PhysReg, i64)>) -> Vec<Instruction> {
        vec![instruction("enter", vec![], vec![])]
    }

    fn emit_epilogue(&self, _: &AbiInfo, _: u32, _: &Vec<(PhysReg, i64)>) -> Vec<Instruction> {
        vec![instruction("leave", vec![], vec![])]
    }

    fn emit_frame_address(
        &self,
        dst: ValueId,
        _: RegClassId,
        _: &PhysReg,
        _: i64,
    ) -> Result<Vec<Instruction>, PassError> {
        Ok(vec![instruction("la", vec![], vec![dst])])
    }
}

fn gpr() -> RegClassId {
    RegClassId::new(Box::leak(Box::new(RegClassInfo {
        key: 1,
        name: "GPR",
        dialect: "toy",
        file: "x",
        registers: &[0, 1, 2, 3],
        group_width: 1,
        view: RegisterView { bit_offset: 0, merge: false },
    })))
}

fn abi(class: RegClassId, callee_saved: Vec<PhysReg>) -> AbiInfo {
    AbiInfo {
        args: vec![],
        caller_saved: vec![(class, 0)],
        callee_saved,
        sp: (class, 3),
        ra: None,
        fp: None,
        reserved: vec![(class, 3)],
        stack: StackInfo { align: 16, slot_size: 8, save_style: SaveStyle::FrameSlots },
    }
}

fn machine(class: RegClassId) -> Machine {
    let info = |name, regs| InstrInfo { dialect: "toy", name, regs };
    Machine {
        instructions: vec![
            info("li", vec![RegPort::def_of("rd", class)]),
            info(
                "add",
                vec![
                    RegPort::def_of("rd", class),
                    RegPort::use_of("rs", class),
                    RegPort::use_of("rt", class),
                ],
            ),
            info("mv", vec![RegPort::def_of("rd", class), RegPort::use_of("rs", class)]),
        ],
        call_ops: vec![],
        return_ops: vec![("asm", "vret")],
    }
}

struct Function {
    symbol: OpId,
    block: BlockId,
    values: Vec<ValueId>,
}

/// `v3 = mv(add(li, li))`, returned.
fn function(context: &mut Context, class: RegClassId) -> Function {
    let ty = context.get_type_id(Type::RegClass(RegClassType(class)));
    let block = context.create_block(vec![]);
    let region = context.create_region();
    context.add_block_to_region(region, block);
    let mut values = vec![];
    let emit = |context: &mut Context, builder: OpBuilder| {
        let op = builder.build(context);
        context.append_op(block, op.id);
        context.results_of(op.id).first().copied()
    };
    for _ in 0..2 {
        values.extend(emit(context, OpBuilder::new("toy", "li").result_type(ty)));
    }
    let add = OpBuilder::new("toy", "add").operand(values[0]).operand(values[1]).result_type(ty);
    values.extend(emit(context, add));
    let copy = OpBuilder::new("toy", "mv")
        .operand(values[2])
        .attr("coalescable_copy", AttributeValue::Bool(true))
        .result_type(ty);
    values.extend(emit(context, copy));
    emit(context, OpBuilder::new("asm", "vret").operand(values[3]));
    let symbol = OpBuilder::new("asm", "symbol").region(region).build(context).id;
    Function { symbol, block, values }
}

fn names(context: &Context, block: BlockId) -> Vec<&'static str> {
    context
        .get_block(block)
        .op_ids(context)
        .iter()
        .map(|op| context.op_identity(*op).1)
        .collect()
}

fn liveness(class: RegClassId, f: &Function) -> Liveness {
    let vregs: Vec<u32> = f.values.iter().map(|v| v.number()).collect();
    Liveness {
        vreg_class: vregs.iter().map(|v| (*v, class)).collect(),
        class_conflicts: vec![],
        allowed_indices: vregs.iter().map(|v| (*v, vec![0, 1, 2, 3])).collect(),
        forbidden: vec![],
        interference: vec![(vregs[0], vregs[1])],
        vregs,
    }
}

fn total(problem: &AllocationProblem, choices: &[usize]) -> u64 {
    let nodes = choices.iter().enumerate().map(|(i, c)| problem.costs[i][*c]);
    let edges = problem.edges.iter().map(|e| e.cells[choices[e.left]][choices[e.right]]);
    nodes.chain(edges).fold(0u64, |sum, cost| sum.saturating_add(cost))
}

/// The cheapest choices, by trying all of them.
fn solve(problem: &AllocationProblem) -> Vec<usize> {
    let mut all: Vec<Vec<usize>> = vec![vec![]];
    for alternatives in &problem.alternatives {
        let mut next = vec![];
        for prefix in &all {
            for choice in 0..alternatives.len() {
                let mut longer = prefix.clone();
                longer.push(choice);
                next.push(longer);
            }
        }
        all = next;
    }
    all.into_iter().min_by_key(|choices| total(problem, choices)).expect("a choice")
}

#[test]
fn a_function_is_allocated_and_framed() {
    let class = gpr();
    let machine = machine(class);
    let mut context = Context::with_default_dialects();
    let f = function(&mut context, class);
    let pass = RegisterAllocationPass::with_abi(Toy { class }, abi(class, vec![(class, 1)]));
    assert_eq!(pass.max_rounds, 16);
    assert!(context.is_sound());
    let mut allocation =
        pass.prepare(&mut context, &machine, f.symbol).expect("prepared").expect("a body");
    let (src, dst) = (f.values[2].number(), f.values[3].number());
    assert_eq!(allocation.affinities, vec![(src, dst)]);
    let live = liveness(class, &f);
    let problem = pass.round_problem(&context, &allocation, &live).expect("a problem");
    let choices = solve(&problem);
    assert!(all_picked(&problem, &choices));
    let assignment = pass
        .advance(&mut context, &mut allocation, &live, &problem, Ok(choices))
        .expect("no failure")
        .expect("an assignment");
    let at = |v: ValueId| assignment.iter().find(|(n, _)| *n == v.number()).expect("placed").1 .1;
    // Both values the sum reads live at once, so they are apart; the copy's ends
    // share the register that costs nothing to save.
    assert_ne!(at(f.values[0]), at(f.values[1]));
    assert_eq!((at(f.values[2]), at(f.values[3])), (0, 0));

    let settled = pass.settle(&mut context, &mut allocation, &assignment).expect("settled");
    assert_eq!(settled.saves.len(), 1);
    assert_eq!((settled.saves[0].0 .1, settled.saves[0].1), (1, 0));
    assert_eq!(settled.frame_size, 16);
    assert!(settled.args.is_empty() && settled.needs_frame());
    assert_eq!(names(&context, f.block), vec!["li", "li", "add", "vret"]);

    pass.record(&mut context, f.symbol, &allocation, &assignment, &settled).expect("recorded");
    let recorded = RegAssignment::of_op(&context, f.symbol, "assignment");
    assert_eq!(recorded.get(f.values[3]).expect("recorded").1, 0);
    assert!(context.is_sound());
    pass.insert_frame(&mut context, &machine, &allocation.blocks, settled.frame_size, &settled.saves)
        .expect("framed");
    assert_eq!(
        names(&context, f.block),
        vec!["enter", "li", "li", "add", "leave", "vret"]
    );
}

#[test]
fn an_allocation_is_concluded_at_once() {
    let class = gpr();
    let machine = machine(class);
    let mut context = Context::with_default_dialects();
    let f = function(&mut context, class);
    let pass = RegisterAllocationPass::with_abi(Toy { class }, abi(class, vec![(class, 1)]));
    let mut allocation =
        pass.prepare(&mut context, &machine, f.symbol).expect("prepared").expect("a body");
    let live = liveness(class, &f);
    let problem = pass.round_problem(&context, &allocation, &live).expect("a problem");
    let choices = solve(&problem);
    let assignment = pass
        .advance(&mut context, &mut allocation, &live, &problem, Ok(choices))
        .expect("no failure")
        .expect("an assignment");
    let done = pass.conclude(&mut context, &machine, f.symbol, &mut allocation, &assignment);
    assert!(matches!(done, Some(Ok(()))));
    let recorded = RegAssignment::of_op(&context, f.symbol, "assignment");
    assert_eq!(recorded.get(f.values[3]).expect("recorded").1, 0);
    assert_eq!(
        names(&context, f.block),
        vec!["enter", "li", "li", "add", "leave", "vret"]
    );
}

#[test]
fn any_cost_of_spilling_is_taken() {
    struct Flat(u64);
    impl SpillCost for Flat {
        fn cost_of(&self, _: u32) -> u64 {
            unreachable!()
        }

        fn cost(&self, _: u32) -> u64 {
            self.0
        }
    }
    let class = gpr();
    let mut context = Context::with_default_dialects();
    let f = function(&mut context, class);
    let info = RegisterInfo { classes: vec![class] };
    let abi = abi(class, vec![]);
    let config = AllocConfig {
        info: &info,
        abi: &abi,
        liveness: &liveness(class, &f),
        precolor: &vec![],
        spill_cost: &Flat(7),
    };
    let problem = allocation_problem(&config, &vec![]).expect("a problem");
    assert!(problem.costs.iter().all(|costs| costs.contains(&7)));
    let vreg = f.values[0].number();
    let free = Liveness { vreg_class: vec![], ..liveness(class, &f) };
    assert_eq!(resolve_class(&free, &vec![], Some(class), vreg).expect("the default"), class);
    assert!(matches!(
        resolve_class(&free, &vec![], None, vreg),
        Err(RegAllocError::Infeasible(n)) if n == vreg
    ));
}

#[test]
fn a_target_without_frames_says_so() {
    assert!(no_frame_code().is_empty());
    let Err(PassError::InvalidRuleSet(text)) = no_frame_address(gpr()) else {
        panic!("another answer")
    };
    assert_eq!(text, "stack allocation addresses are not supported for register class GPR");
}

#[test]
fn an_unaligned_frame_needs_no_room() {
    let class = gpr();
    let mut plan = FramePlan::new(&abi(class, vec![]));
    plan.next_offset = 12;
    plan.align = 0xffff_ffff;
    assert_eq!(plan.save_style, SaveStyle::FrameSlots);
    plan.align = 16;
    assert_eq!(plan.prologue_adjustment(true, 3), 16);
    plan.save_style = SaveStyle::PushPop;
    assert_eq!(plan.prologue_adjustment(false, 3), 16);
    assert_eq!(plan.prologue_adjustment(true, 3), 16);
    assert_eq!(plan.prologue_adjustment(true, 2), 24);
}

#[test]
fn too_few_registers_spill() {
    let class = gpr();
    let machine = machine(class);
    let mut context = Context::with_default_dialects();
    let f = function(&mut context, class);
    let pass = RegisterAllocationPass::with_abi(Toy { class }, abi(class, vec![]));
    let mut allocation =
        pass.prepare(&mut context, &machine, f.symbol).expect("prepared").expect("a body");
    let live = liveness(class, &f);
    let problem = pass.round_problem(&context, &allocation, &live).expect("a problem");
    let choices = solve(&problem);
    let done = pass
        .advance(&mut context, &mut allocation, &live, &problem, Ok(choices))
        .expect("no failure");
    assert!(done.is_none());
    assert_eq!(allocation.frame.rounds, 1);
    assert_eq!(allocation.frame.next_offset, 8);
    let ops = names(&context, f.block);
    assert_eq!(ops.iter().filter(|n| **n == "sw").count(), 1);
    assert_eq!(ops.iter().filter(|n| **n == "lw").count(), 1);

    let solution = Err("no \"alternatives\"".to_owned());
    let error = pass.advance(&mut context, &mut allocation, &live, &problem, solution);
    let Err(PassError::InvalidRuleSet(text)) = error else { panic!("another error") };
    assert_eq!(text, "register allocation failed: Solver(\"no \\\"alternatives\\\"\")");
    let solution = Err("no alternatives".to_owned());
    let error = pass.advance(&mut context, &mut allocation, &live, &problem, solution);
    let Err(PassError::InvalidRuleSet(text)) = error else { panic!("another error") };
    assert_eq!(text, "register allocation failed: Solver(\"no alternatives\")");

    let mut conflicting = liveness(class, &f);
    conflicting.class_conflicts = vec![f.values[0].number()];
    let error = pass.round_problem(&context, &allocation, &conflicting);
    let Err(PassError::InvalidRuleSet(text)) = error else { panic!("another error") };
    let vreg = f.values[0].number();
    assert_eq!(text, format!("register allocation failed: ClassConflict({vreg})"));
}

#[test]
fn a_symbol_without_a_body_needs_no_registers() {
    let class = gpr();
    let mut context = Context::with_default_dialects();
    let symbol = OpBuilder::new("asm", "symbol").build(&mut context).id;
    let pass = RegisterAllocationPass::with_abi(Toy { class }, abi(class, vec![]));
    let prepared = pass.prepare(&mut context, &machine(class), symbol).expect("prepared");
    assert!(prepared.is_none());
}

#[test]
fn successors_are_listed_once() {
    let class = gpr();
    let mut context = Context::with_default_dialects();
    let f = function(&mut context, class);
    let (a, b) = (context.create_block(vec![]), context.create_block(vec![]));
    let ops = context.get_block(f.block).op_ids(&context);
    let terminators = vec![(ops[2], vec![b, a, b]), (ops[4], vec![a])];
    let found = block_successors(&context, &vec![f.block, a], &terminators);
    assert_eq!(found, vec![(f.block, vec![b, a]), (a, vec![])]);
}

#[test]
fn blocks_are_reordered() {
    let class = gpr();
    let mut context = Context::with_default_dialects();
    let f = function(&mut context, class);
    assert_eq!(blocks_to_shuffle(&context, f.symbol), vec![f.block]);
    let mut ops = context.get_block(f.block).op_ids(&context);
    ops.swap(0, 1);
    reorder(&mut context, f.block, Some(ops.clone())).expect("an order");
    assert_eq!(context.get_block(f.block).op_ids(&context), ops);
    let error = reorder(&mut context, f.block, None).expect_err("no order");
    let PassError::InvalidRuleSet(text) = error else { panic!("another error") };
    assert_eq!(text, format!("cyclic dependences in BlockId({})", f.block.number()));
}

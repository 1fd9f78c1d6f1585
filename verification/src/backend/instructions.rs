//! Machine instructions described apart from the context that will hold them,
//! and where they are put.
use vstd::prelude::*;
use crate::attributes::named_views;
use crate::attributes::AttrView;
use crate::attributes::NamedAttribute;
use crate::context::edits::first_position;
use crate::context::edits::first_position_is_first;
use crate::context::edits::op_position;
use crate::context::kept::interning_keeps_sound;
use crate::context::kept::keeps;
use crate::context::kept::placing_keeps_sound;
use crate::context::kept::storing_keeps_sound;
use crate::context::Context;
use crate::context::ContextView;
use crate::ids::BlockId;
use crate::ids::OpId;
use crate::ids::OpNameId;
use crate::ids::ValueId;
use crate::ir::OpView;
use crate::lists::MAX_IDS;
use crate::operation::with_op_name;
use crate::context::edits::NewOp;

verus! {

/// Why a pass stopped.
#[derive(Debug)]
pub enum PassError {
    /// What the pass was given does not fit the target.
    InvalidRuleSet(String),
    /// A rewrite around this operation was impossible.
    RewriteFailed(OpId),
}

/// What a pass error says.
pub ghost enum PassErrorView {
    InvalidRuleSet(Seq<char>),
    RewriteFailed(OpId),
}

impl View for PassError {
    type V = PassErrorView;

    open spec fn view(&self) -> PassErrorView {
        match self {
            PassError::InvalidRuleSet(m) => PassErrorView::InvalidRuleSet(m@),
            PassError::RewriteFailed(op) => PassErrorView::RewriteFailed(*op),
        }
    }
}

/// Whether an outcome fails as `e` says.
pub open spec fn fails<T>(r: Result<T, PassError>, e: PassErrorView) -> bool {
    match r {
        Ok(_) => false,
        Err(error) => error@ == e,
    }
}

/// One machine instruction.
#[derive(Debug)]
pub struct Instruction {
    pub dialect: &'static str,
    pub name: &'static str,
    pub operands: Vec<ValueId>,
    pub results: Vec<ValueId>,
    pub attributes: Vec<NamedAttribute>,
}

/// What an instruction says.
pub ghost struct InstructionView {
    pub identity: (Seq<char>, Seq<char>),
    pub operands: Seq<ValueId>,
    pub results: Seq<ValueId>,
    pub attributes: Seq<(Seq<char>, AttrView)>,
}

impl View for Instruction {
    type V = InstructionView;

    open spec fn view(&self) -> InstructionView {
        InstructionView {
            identity: (self.dialect@, self.name@),
            operands: self.operands@,
            results: self.results@,
            attributes: named_views(self.attributes@),
        }
    }
}

impl InstructionView {
    /// Whether every operand is an id a value can have, and the lists are no
    /// longer than an operation's can be.
    pub open spec fn wf(self) -> bool {
        &&& self.operands.len() <= MAX_IDS
        &&& self.results.len() <= MAX_IDS
        &&& forall|i: int|
            0 <= i < self.operands.len() ==> (#[trigger] self.operands[i]).0 < u32::MAX
    }
}

/// What a list of instructions says.
pub open spec fn instruction_views(list: Seq<Instruction>) -> Seq<InstructionView> {
    list.map_values(|i: Instruction| i@)
}

/// Whether every instruction of a list can be stored.
pub open spec fn all_wf(list: Seq<InstructionView>) -> bool {
    forall|i: int| 0 <= i < list.len() ==> (#[trigger] list[i]).wf()
}

impl ContextView {
    /// The id the next operation is stored under.
    pub open spec fn next_op(self) -> OpId {
        OpId(self.ir.ops.now.len() as u32)
    }

    /// With one more operation, held by nothing.
    pub open spec fn with_instruction(self, instruction: InstructionView) -> Self {
        let named = with_op_name(self, instruction.identity);
        named.with_new_op(
            OpView {
                name: OpNameId(first_position(named.names, instruction.identity)->0 as u32),
                operands: instruction.operands,
                results: instruction.results,
                regions: Seq::empty(),
                dep_operands: 0,
                dep_results: 0,
                attributes: instruction.attributes,
                parent: None,
            },
        )
    }

    /// Where `block` holds `op`.
    pub open spec fn position_in(self, block: BlockId, op: OpId) -> Option<int> {
        match self.ir.block(block) {
            Some(b) => first_position(b.operations, op),
            None => None,
        }
    }

    /// With `new` in `block` just before what stands at `at`.
    pub open spec fn with_inserted(self, block: BlockId, at: int, new: OpId) -> Self {
        self.with_op_in_block(block, self.ir.block(block)->0.operations.insert(at, new), new)
    }

    /// With one more operation in `block`, just before `op`, which it holds.
    pub open spec fn with_instruction_before(
        self,
        block: BlockId,
        op: OpId,
        instruction: InstructionView,
    ) -> Self {
        let added = self.with_instruction(instruction);
        added.with_inserted(block, added.position_in(block, op)->0, self.next_op())
    }

    /// With one more operation in `block`, just after `op`, which it holds.
    pub open spec fn with_instruction_after(
        self,
        block: BlockId,
        op: OpId,
        instruction: InstructionView,
    ) -> Self {
        let added = self.with_instruction(instruction);
        added.with_inserted(block, added.position_in(block, op)->0 + 1, self.next_op())
    }

    /// Whether `n` more operations, values, types and names can be stored.
    pub open spec fn has_room(self, n: int) -> bool {
        &&& self.ir.ops.now.len() + n <= u32::MAX
        &&& self.ir.values.now.len() + n <= u32::MAX
        &&& self.types.len() + n <= u32::MAX
        &&& self.names.len() + n <= u32::MAX
    }
}

/// Whether there are ids left for `n` more operations, values, types and names.
pub fn room_for(context: &Context, n: u64) -> (r: bool)
    requires
        context.inv(),
    ensures
        r == context@.has_room(n as int),
{
    if n > u32::MAX as u64 {
        return false;
    }
    let left: u64 = u32::MAX as u64 - n;
    proof {
        context.inv_wf();
    }
    context.op_count() as u64 <= left && context.value_count() as u64 <= left
        && context.type_count() as u64 <= left && context.name_count() as u64 <= left
}

/// Stores an instruction as an operation nothing holds.
pub fn add_instruction(context: &mut Context, instruction: Instruction) -> (id: OpId)
    requires
        old(context).inv(),
        old(context)@.names.len() < u32::MAX,
        old(context)@.ir.ops.now.len() < u32::MAX,
        instruction@.wf(),
    ensures
        final(context).inv(),
        id == old(context)@.next_op(),
        final(context)@ == old(context)@.with_instruction(instruction@),
{
    let ghost i = instruction@;
    let none: Vec<crate::ids::RegionId> = Vec::new();
    assert(none@ =~= Seq::empty());
    let op = NewOp::new_dynamic(
        (instruction.dialect, instruction.name),
        context,
        instruction.operands,
        instruction.results,
        none,
        instruction.attributes,
    );
    assert forall|k: int| 0 <= k < op.operands@.len() implies (#[trigger] op.operands@[k]).0
        < u32::MAX by {
        assert(op.operands@[k] == i.operands[k]);
    }
    context.add_operation(op)
}

/// Adding an instruction, and putting it into a block, keeps a context sound.
pub proof fn adding_keeps_sound(context: ContextView, instruction: InstructionView)
    requires
        instruction.wf(),
        context.names.len() < u32::MAX,
        context.ir.ops.now.len() < u32::MAX,
    ensures
        keeps(context, context.with_instruction(instruction)),
        forall|block: BlockId, at: int|
            #![trigger context.with_instruction(instruction).with_inserted(
                block,
                at,
                context.next_op(),
            )]
            context.ir.block(block) is Some && 0 <= at <= context.ir.block(
                block,
            )->0.operations.len() ==> keeps(
                context,
                context.with_instruction(instruction).with_inserted(
                    block,
                    at,
                    context.next_op(),
                ),
            ),
{
    let named = with_op_name(context, instruction.identity);
    let op = OpView {
        name: OpNameId(first_position(named.names, instruction.identity)->0 as u32),
        operands: instruction.operands,
        results: instruction.results,
        regions: Seq::empty(),
        dep_operands: 0,
        dep_results: 0,
        attributes: instruction.attributes,
        parent: None,
    };
    let after = context.with_instruction(instruction);
    adding_keeps_blocks(context, instruction);
    first_position_is_first(named.names, instruction.identity);
    assert(named.names.contains(instruction.identity)) by {
        if !context.names.contains(instruction.identity) {
            assert(named.names[context.names.len() as int] == instruction.identity);
        }
    }
    if context.sound() {
        interning_keeps_sound(context, named);
        storing_keeps_sound(named, op);
        adding_keeps_operations(context, instruction, context.next_op());
        assert forall|block: BlockId, at: int|
            #![trigger after.with_inserted(block, at, context.next_op())]
            context.ir.block(block) is Some && 0 <= at <= context.ir.block(
                block,
            )->0.operations.len() implies keeps(
            context,
            after.with_inserted(block, at, context.next_op()),
        ) by {
            let ops = context.ir.block(block)->0.operations;
            let more = ops.insert(at, context.next_op());
            assert(after.block_sound(block));
            assert forall|i: int| 0 <= i < more.len() implies after.ir.op(
                #[trigger] more[i],
            ) is Some by {
                if i < at {
                    assert(more[i] == ops[i]);
                } else if i > at {
                    assert(more[i] == ops[i - 1]);
                }
            }
            placing_keeps_sound(after, block, more, context.next_op());
        }
    }
}

/// Adding an instruction leaves every block as it was.
pub proof fn adding_keeps_blocks(context: ContextView, instruction: InstructionView)
    ensures
        context.with_instruction(instruction).ir.blocks == context.ir.blocks,
        context.with_instruction(instruction).ir.regions == context.ir.regions,
        context.with_instruction(instruction).ir.values.now.len() == context.ir.values.now.len(),
        context.with_instruction(instruction).ir.ops.now.len() == context.ir.ops.now.len() + 1,
        context.with_instruction(instruction).types == context.types,
        context.with_instruction(instruction).names.len() <= context.names.len() + 1,
{
    let named = with_op_name(context, instruction.identity);
    let op = OpView {
        name: OpNameId(first_position(named.names, instruction.identity)->0 as u32),
        operands: instruction.operands,
        results: instruction.results,
        regions: Seq::empty(),
        dep_operands: 0,
        dep_results: 0,
        attributes: instruction.attributes,
        parent: None,
    };
    let id = named.next_op();
    let added = named.ir.add_op(op);
    defining_keeps_blocks(added, op.results, id, op.results.len());
}

/// Adding an instruction keeps every operation there was, and the new one is
/// there.
pub proof fn adding_keeps_operations(
    context: ContextView,
    instruction: InstructionView,
    other: OpId,
)
    ensures
        context.ir.op(other) is Some ==> context.with_instruction(instruction).ir.op(other)
            == context.ir.op(other),
        context.ir.ops.now.len() < u32::MAX ==> context.with_instruction(instruction).ir.op(
            context.next_op(),
        ) is Some,
{
    let named = with_op_name(context, instruction.identity);
    let op = OpView {
        name: OpNameId(first_position(named.names, instruction.identity)->0 as u32),
        operands: instruction.operands,
        results: instruction.results,
        regions: Seq::empty(),
        dep_operands: 0,
        dep_results: 0,
        attributes: instruction.attributes,
        parent: None,
    };
    defining_keeps_blocks(named.ir.add_op(op), op.results, named.next_op(), op.results.len());
}

/// An id below the next one names after an instruction was added what it named
/// before.
pub proof fn adding_keeps_old_ids(
    context: ContextView,
    instruction: InstructionView,
    other: OpId,
)
    requires
        other.0 < context.ir.ops.now.len(),
    ensures
        context.with_instruction(instruction).ir.op(other) == context.ir.op(other),
{
    let named = with_op_name(context, instruction.identity);
    let op = OpView {
        name: OpNameId(first_position(named.names, instruction.identity)->0 as u32),
        operands: instruction.operands,
        results: instruction.results,
        regions: Seq::empty(),
        dep_operands: 0,
        dep_results: 0,
        attributes: instruction.attributes,
        parent: None,
    };
    defining_keeps_blocks(named.ir.add_op(op), op.results, named.next_op(), op.results.len());
}

proof fn defining_keeps_blocks(
    ir: crate::ir::IrView,
    results: Seq<ValueId>,
    op: OpId,
    n: nat,
)
    ensures
        crate::context::edits::results_defined(ir, results, op, n).blocks == ir.blocks,
        crate::context::edits::results_defined(ir, results, op, n).regions == ir.regions,
        crate::context::edits::results_defined(ir, results, op, n).ops == ir.ops,
        crate::context::edits::results_defined(ir, results, op, n).values.now.len()
            == ir.values.now.len(),
    decreases n,
{
    if n > 0 {
        defining_keeps_blocks(ir, results, op, (n - 1) as nat);
    }
}

/// Stores an instruction in `block`, just before `op`.
pub fn insert_before(context: &mut Context, block: BlockId, op: OpId, instruction: Instruction) -> (r:
    Result<OpId, PassError>)
    requires
        old(context).inv(),
        old(context)@.names.len() < u32::MAX,
        old(context)@.ir.ops.now.len() < u32::MAX,
        instruction@.wf(),
    ensures
        final(context).inv(),
        keeps(old(context)@, final(context)@),
        old(context)@.position_in(block, op) is Some ==> r is Ok && r->Ok_0
            == old(context)@.next_op() && final(context)@
            == old(context)@.with_instruction_before(block, op, instruction@),
        old(context)@.position_in(block, op) is None ==> final(context)@ == old(context)@ && fails(
            r,
            PassErrorView::RewriteFailed(op),
        ),
{
    let ghost i = instruction@;
    proof {
        adding_keeps_blocks(context@, i);
        adding_keeps_sound(context@, i);
        if context@.position_in(block, op) is Some {
            first_position_is_first(context@.ir.block(block)->0.operations, op);
        }
    }
    let ghost before = context@;
    if !context.has_block(block) {
        return Err(PassError::RewriteFailed(op));
    }
    match op_position(&context.block_ref(block).operations, op) {
        Some(position) => {
            let id = add_instruction(context, instruction);
            proof {
                adding_keeps_operations(before, i, id);
            }
            context.insert_op(block, position, id);
            assert(context@ == before.with_instruction(i).with_inserted(
                block,
                position as int,
                before.next_op(),
            ));
            Ok(id)
        },
        None => Err(PassError::RewriteFailed(op)),
    }
}

/// Stores an instruction in `block`, just after `op`: before what follows it, or
/// at the end where `op` is the last.
pub fn insert_after(context: &mut Context, block: BlockId, op: OpId, instruction: Instruction) -> (r:
    Result<OpId, PassError>)
    requires
        old(context).inv(),
        old(context)@.names.len() < u32::MAX,
        old(context)@.ir.ops.now.len() < u32::MAX,
        instruction@.wf(),
    ensures
        final(context).inv(),
        keeps(old(context)@, final(context)@),
        old(context)@.position_in(block, op) is Some ==> r is Ok && r->Ok_0
            == old(context)@.next_op() && final(context)@
            == old(context)@.with_instruction_after(block, op, instruction@),
        old(context)@.position_in(block, op) is None ==> final(context)@ == old(context)@ && fails(
            r,
            PassErrorView::RewriteFailed(op),
        ),
{
    let ghost i = instruction@;
    proof {
        adding_keeps_blocks(context@, i);
        adding_keeps_sound(context@, i);
        if context@.position_in(block, op) is Some {
            first_position_is_first(context@.ir.block(block)->0.operations, op);
        }
    }
    let ghost before = context@;
    if !context.has_block(block) {
        return Err(PassError::RewriteFailed(op));
    }
    match op_position(&context.block_ref(block).operations, op) {
        Some(position) => {
            let id = add_instruction(context, instruction);
            proof {
                adding_keeps_operations(before, i, id);
            }
            context.insert_op(block, position + 1, id);
            assert(context@ == before.with_instruction(i).with_inserted(
                block,
                position + 1,
                before.next_op(),
            ));
            Ok(id)
        },
        None => Err(PassError::RewriteFailed(op)),
    }
}

} // verus!

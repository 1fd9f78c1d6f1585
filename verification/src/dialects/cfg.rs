//! The `cfg` dialect: branches between the blocks of a region that also hand
//! memory states on, after the values.
pub mod round_trip;
pub mod syntax;

use vstd::prelude::*;
use crate::access::block_ref_attr;
use crate::context::Context;
use crate::context::ContextView;
use crate::context::OpHandle;
use crate::dependency::value_list;
use crate::dependency::value_list_text;
use crate::dependency::value_name;
use crate::dependency::value_text;
use crate::dialects::builtin::control::group_size;
use crate::dialects::builtin::control::operand_slice;
use crate::dialects::print::type_names_text;
use crate::dialects::print::types_of;
use crate::ids::BlockId;
use crate::ids::OpId;
use crate::ids::ValueId;
use crate::interfaces::edges_of;
use crate::interfaces::BranchGuard;
use crate::interfaces::BranchTerminator;
use crate::interfaces::Edge;
use crate::interfaces::Terminator;
use crate::ir::copy_list;
use crate::ir_formatter::FormatView;
use crate::ir_formatter::IRFormatter;
use crate::lists::MAX_IDS;
use crate::text::cat2;
use crate::text::cat3;
use crate::text::cat4;
use crate::text::cat6;
use crate::text::decimal;
use crate::text::decimal_string;

verus! {

/// A jump to one block.
#[derive(Debug, Clone, Copy)]
pub struct BranchOp(pub OpHandle);

/// A jump to one of two blocks.
#[derive(Debug, Clone, Copy)]
pub struct CondBranchOp(pub OpHandle);

impl ContextView {
    /// States as a branch writes them: `state(%s, %t)`, after a comma where
    /// something stands before them, and nothing where there are none.
    pub open spec fn state_group(self, states: Seq<ValueId>, follows: bool) -> Seq<char> {
        if states.len() == 0 {
            Seq::empty()
        } else {
            (if follows {
                ", state("@
            } else {
                "state("@
            }) + value_list(states) + ")"@
        }
    }

    /// Values with their types, and nothing where there are none.
    pub open spec fn typed_values(self, values: Seq<ValueId>) -> Seq<char> {
        if values.len() == 0 {
            Seq::empty()
        } else {
            value_list(values) + " : "@ + self.type_names(
                self.types_of(values),
                values.len() as int,
            )
        }
    }

    /// What a branch hands a block, in brackets: the values with their types,
    /// then the states.
    pub open spec fn handed_text(self, args: Seq<ValueId>) -> Seq<char> {
        if args.len() == 0 {
            Seq::empty()
        } else {
            let values = self.filtered(args, false);
            "("@ + self.typed_values(values) + self.state_group(
                self.filtered(args, true),
                values.len() > 0,
            ) + ")"@
        }
    }
}

/// A successor as it is written: `^bbN`, and what it is handed.
pub open spec fn cfg_successor(
    fmt: FormatView,
    context: ContextView,
    block: BlockId,
    args: Seq<ValueId>,
) -> Seq<char> {
    "^bb"@ + decimal(fmt.block_number(block) as nat) + context.handed_text(args)
}

fn handed_string(context: &Context, args: &Vec<ValueId>) -> (s: String)
    requires
        context.inv(),
        context@.values_typed(args@),
        args.len() <= MAX_IDS,
    ensures
        s@ == context@.handed_text(args@),
{
    proof {
        reveal_strlit("");
        assert(""@ =~= Seq::<char>::empty());
    }
    if args.len() == 0 {
        return "".to_owned();
    }
    let values = context.values_among(args.as_slice()).to_vec();
    let states = context.states_among(args.as_slice()).to_vec();
    proof {
        filtered_are_typed(context@, args@, false);
    }
    let listed = if values.len() == 0 {
        "".to_owned()
    } else {
        let types = types_of(context, &values);
        cat3(
            value_list_text(values.as_slice()).as_str(),
            " : ",
            type_names_text(context, &types).as_str(),
        )
    };
    let group = if states.len() == 0 {
        "".to_owned()
    } else {
        let lead = if values.len() > 0 {
            ", state("
        } else {
            "state("
        };
        cat3(lead, value_list_text(states.as_slice()).as_str(), ")")
    };
    cat4("(", listed.as_str(), group.as_str(), ")")
}

proof fn filtered_are_typed(context: ContextView, ids: Seq<ValueId>, states: bool)
    requires
        context.values_typed(ids),
    ensures
        context.values_typed(context.filtered(ids, states)),
    decreases ids.len(),
{
    if ids.len() > 0 {
        let rest = ids.drop_last();
        assert forall|i: int| 0 <= i < rest.len() implies context.ir.value(#[trigger] rest[i]) is Some
            && context.value_sound(rest[i]) by {
            assert(rest[i] == ids[i]);
        }
        filtered_are_typed(context, rest, states);
        assert(context.ir.value(ids[ids.len() - 1]) is Some);
    }
}

/// A successor as it is written.
pub fn cfg_successor_string(
    fmt: &IRFormatter,
    context: &Context,
    block: BlockId,
    args: &Vec<ValueId>,
) -> (s: String)
    requires
        context.inv(),
        context@.values_typed(args@),
        args.len() <= MAX_IDS,
    ensures
        s@ == cfg_successor(fmt@, context@, block, args@),
{
    cat3(
        "^bb",
        decimal_string(fmt.region_block_number(block) as u64).as_str(),
        handed_string(context, args).as_str(),
    )
}

impl ContextView {
    /// Whether a jump names its block.
    pub open spec fn branch_wf(self, op: OpId) -> bool {
        self.ir.op(op) is Some && self.block_ref_attr(op, "dest"@) is Some
    }
}

impl BranchOp {
    /// The block jumped to.
    pub fn dest(&self, context: &Context) -> (b: BlockId)
        requires
            context.inv(),
            context@.block_ref_attr(self.0.id, "dest"@) is Some,
        ensures
            context@.block_ref_attr(self.0.id, "dest"@) == Some(b),
    {
        block_ref_attr(context, self.0.id, "dest").unwrap()
    }

    /// The values forwarded to the destination block's arguments.
    pub fn dest_args(&self, context: &Context) -> (r: Vec<ValueId>)
        requires
            context.inv(),
            context@.ir.op(self.0.id) is Some,
        ensures
            r@ == context@.ir.op(self.0.id)->0.operands,
    {
        copy_list(context.operands_of(self.0.id))
    }

    /// Prints the branch.
    pub fn custom_print(&self, context: &Context, fmt: &mut IRFormatter)
        requires
            context.inv(),
            context@.branch_wf(self.0.id),
            context@.readable(self.0.id),
            context@.values_typed(context@.ir.op(self.0.id)->0.operands),
        ensures
            final(fmt)@ == old(fmt)@.written(
                "cfg.br "@ + cfg_successor(
                    old(fmt)@,
                    context@,
                    context@.block_ref_attr(self.0.id, "dest"@)->0,
                    context@.ir.op(self.0.id)->0.operands,
                ) + "\n"@,
            ),
    {
        let args = self.dest_args(context);
        let successor = cfg_successor_string(fmt, context, self.dest(context), &args);
        let text = cat3("cfg.br ", successor.as_str(), "\n");
        fmt.write(text.as_str());
    }
}

impl Terminator for BranchOp {
    open spec fn successor_blocks(&self, context: ContextView) -> Seq<BlockId> {
        seq![context.block_ref_attr(self.0.id, "dest"@)->0]
    }

    open spec fn terminates(&self, context: ContextView) -> bool {
        context.branch_wf(self.0.id)
    }

    fn successors(&self, context: &Context) -> (r: Vec<BlockId>) {
        let mut r: Vec<BlockId> = Vec::new();
        r.push(self.dest(context));
        assert(r@ =~= self.successor_blocks(context@));
        r
    }
}

impl BranchTerminator for BranchOp {
    open spec fn branches(&self, context: ContextView) -> bool {
        context.branch_wf(self.0.id)
    }

    open spec fn edges(&self, context: ContextView) -> Seq<Edge> {
        seq![(context.block_ref_attr(self.0.id, "dest"@)->0, context.ir.op(self.0.id)->0.operands)]
    }

    fn successor_operands(&self, context: &Context) -> (r: Vec<(BlockId, Vec<ValueId>)>) {
        let mut r: Vec<(BlockId, Vec<ValueId>)> = Vec::new();
        r.push((self.dest(context), self.dest_args(context)));
        assert(edges_of(r@) =~= self.edges(context@));
        r
    }
}

impl CondBranchOp {
    /// The condition.
    pub fn condition(&self, context: &Context) -> (v: ValueId)
        requires
            context.inv(),
            context@.ir.op(self.0.id) is Some,
            context@.ir.op(self.0.id)->0.operands.len() > 0,
        ensures
            v == context@.ir.op(self.0.id)->0.operands[0],
    {
        context.operands_of(self.0.id)[0]
    }

    /// The block taken where the condition holds.
    pub fn true_dest(&self, context: &Context) -> (b: BlockId)
        requires
            context.inv(),
            context@.block_ref_attr(self.0.id, "true_dest"@) is Some,
        ensures
            context@.block_ref_attr(self.0.id, "true_dest"@) == Some(b),
    {
        block_ref_attr(context, self.0.id, "true_dest").unwrap()
    }

    /// The block taken where the condition does not hold.
    pub fn false_dest(&self, context: &Context) -> (b: BlockId)
        requires
            context.inv(),
            context@.block_ref_attr(self.0.id, "false_dest"@) is Some,
        ensures
            context@.block_ref_attr(self.0.id, "false_dest"@) == Some(b),
    {
        block_ref_attr(context, self.0.id, "false_dest").unwrap()
    }

    /// The values forwarded to the true successor's block arguments, the states
    /// among them last.
    pub fn true_args(&self, context: &Context) -> (r: Vec<ValueId>)
        requires
            context.inv(),
            context@.cond_branch_wf(self.0.id),
        ensures
            r@ == context@.true_args(self.0.id),
    {
        let all: usize = context.operands_of(self.0.id).len();
        let taken: usize = group_size(context, self.0.id, 1);
        operand_slice(context, self.0.id, 1, 1 + taken)
    }

    /// The values forwarded to the false successor's block arguments, the states
    /// among them last.
    pub fn false_args(&self, context: &Context) -> (r: Vec<ValueId>)
        requires
            context.inv(),
            context@.cond_branch_wf(self.0.id),
        ensures
            r@ == context@.false_args(self.0.id),
    {
        let all: usize = context.operands_of(self.0.id).len();
        let taken: usize = group_size(context, self.0.id, 1);
        let other: usize = group_size(context, self.0.id, 2);
        operand_slice(context, self.0.id, 1 + taken, 1 + taken + other)
    }

    /// Prints the branch.
    pub fn custom_print(&self, context: &Context, fmt: &mut IRFormatter)
        requires
            context.inv(),
            context@.cond_branch_wf(self.0.id),
            context@.readable(self.0.id),
            context@.values_typed(context@.ir.op(self.0.id)->0.operands),
        ensures
            final(fmt)@ == old(fmt)@.written(
                "cfg.cond_br "@ + value_name(context@.ir.op(self.0.id)->0.operands[0]) + ", "@
                    + cfg_successor(
                    old(fmt)@,
                    context@,
                    context@.block_ref_attr(self.0.id, "true_dest"@)->0,
                    context@.true_args(self.0.id),
                ) + ", "@ + (cfg_successor(
                    old(fmt)@,
                    context@,
                    context@.block_ref_attr(self.0.id, "false_dest"@)->0,
                    context@.false_args(self.0.id),
                ) + "\n"@),
            ),
    {
        let taken = self.true_args(context);
        let other = self.false_args(context);
        proof {
            let all = context@.ir.op(self.0.id)->0.operands;
            let t = context@.group_size(self.0.id, 1);
            assert forall|i: int| 0 <= i < taken@.len() implies context@.ir.value(
                #[trigger] taken@[i],
            ) is Some && context@.value_sound(taken@[i]) by {
                assert(taken@[i] == all[1 + i]);
            }
            assert forall|i: int| 0 <= i < other@.len() implies context@.ir.value(
                #[trigger] other@[i],
            ) is Some && context@.value_sound(other@[i]) by {
                assert(other@[i] == all[1 + t + i]);
            }
        }
        let first = cfg_successor_string(fmt, context, self.true_dest(context), &taken);
        let second = cfg_successor_string(fmt, context, self.false_dest(context), &other);
        let tail = cat2(second.as_str(), "\n");
        let text = cat6(
            "cfg.cond_br ",
            value_text(self.condition(context)).as_str(),
            ", ",
            first.as_str(),
            ", ",
            tail.as_str(),
        );
        fmt.write(text.as_str());
    }
}

impl Terminator for CondBranchOp {
    open spec fn successor_blocks(&self, context: ContextView) -> Seq<BlockId> {
        seq![
            context.block_ref_attr(self.0.id, "true_dest"@)->0,
            context.block_ref_attr(self.0.id, "false_dest"@)->0,
        ]
    }

    open spec fn terminates(&self, context: ContextView) -> bool {
        context.cond_branch_wf(self.0.id)
    }

    fn successors(&self, context: &Context) -> (r: Vec<BlockId>) {
        let mut r: Vec<BlockId> = Vec::new();
        r.push(self.true_dest(context));
        r.push(self.false_dest(context));
        assert(r@ =~= self.successor_blocks(context@));
        r
    }
}

impl BranchTerminator for CondBranchOp {
    open spec fn branches(&self, context: ContextView) -> bool {
        context.cond_branch_wf(self.0.id)
    }

    open spec fn edges(&self, context: ContextView) -> Seq<Edge> {
        seq![
            (
                context.block_ref_attr(self.0.id, "true_dest"@)->0,
                context.true_args(self.0.id),
            ),
            (
                context.block_ref_attr(self.0.id, "false_dest"@)->0,
                context.false_args(self.0.id),
            ),
        ]
    }

    fn successor_operands(&self, context: &Context) -> (r: Vec<(BlockId, Vec<ValueId>)>) {
        let mut r: Vec<(BlockId, Vec<ValueId>)> = Vec::new();
        r.push((self.true_dest(context), self.true_args(context)));
        r.push((self.false_dest(context), self.false_args(context)));
        assert(edges_of(r@) =~= self.edges(context@));
        r
    }
}

impl BranchGuard for CondBranchOp {
    open spec fn guards(&self, context: ContextView) -> bool {
        context.cond_branch_wf(self.0.id)
    }

    open spec fn guarded(&self, context: ContextView) -> Seq<(BlockId, ValueId, bool)> {
        let condition = context.ir.op(self.0.id)->0.operands[0];
        seq![
            (context.block_ref_attr(self.0.id, "true_dest"@)->0, condition, true),
            (context.block_ref_attr(self.0.id, "false_dest"@)->0, condition, false),
        ]
    }

    fn guarded_successors(&self, context: &Context) -> (r: Vec<(BlockId, ValueId, bool)>) {
        let condition = self.condition(context);
        let mut r: Vec<(BlockId, ValueId, bool)> = Vec::new();
        r.push((self.true_dest(context), condition, true));
        r.push((self.false_dest(context), condition, false));
        assert(r@ =~= self.guarded(context@));
        r
    }
}

/// The blocks a conditional branch may pass control to are those its edges lead
/// to and those it guards, in the same order.
pub proof fn edges_and_guards_agree(context: ContextView, op: CondBranchOp)
    ensures
        op.edges(context).map_values(|e: Edge| e.0) == op.successor_blocks(context),
        op.guarded(context).map_values(|g: (BlockId, ValueId, bool)| g.0) == op.successor_blocks(
            context,
        ),
{
    assert(op.edges(context).map_values(|e: Edge| e.0) =~= op.successor_blocks(context));
    assert(op.guarded(context).map_values(|g: (BlockId, ValueId, bool)| g.0)
        =~= op.successor_blocks(context));
}

} // verus!

//! Branches between the blocks of a region.
use vstd::prelude::*;
use crate::access::block_ref_attr;
use crate::attributes::attr_views;
use crate::attributes::AttrView;
use crate::attributes::AttributeValue;
use crate::builder::BuilderView;
use crate::builder::OpBuilder;
use crate::context::regions::recorded_sizes;
use crate::context::regions::segment_size;
use crate::context::regions::size_of_item;
use crate::context::regions::sizes_of;
use crate::context::Context;
use crate::context::ContextView;
use crate::context::OpHandle;
use crate::dependency::value_name;
use crate::dependency::value_text;
use crate::dialects::print::typed_args_text;
use crate::ids::BlockId;
use crate::ids::OpId;
use crate::ids::ValueId;
use crate::interfaces::Terminator;
use crate::ir::copy_list;
use crate::ir_formatter::FormatView;
use crate::ir_formatter::IRFormatter;
use crate::text::cat2;
use crate::text::cat3;
use crate::text::cat6;
use crate::text::decimal;
use crate::text::decimal_string;

verus! {

/// A jump to one block.
#[derive(Debug, Clone, Copy)]
pub struct BranchOp(pub OpHandle);

/// A jump to one of two blocks.
#[derive(Debug, Clone, Copy)]
pub struct CondBranchOp(pub OpHandle);

/// Builds a [`BranchOp`].
pub struct BranchOpBuilder(pub OpBuilder);

/// Builds a [`CondBranchOp`].
pub struct CondBranchOpBuilder(pub OpBuilder);

impl ContextView {
    /// How many operands of `op` group `k` holds, by the sizes it records.
    pub open spec fn group_size(self, op: OpId, k: int) -> nat {
        match recorded_sizes(self.ir.op(op)->0.attributes) {
            Some(items) => if 0 <= k < items.len() {
                segment_size(items[k])
            } else {
                0
            },
            None => 0,
        }
    }

    /// Whether the operands of a conditional branch are a condition and the two
    /// groups of arguments it records.
    pub open spec fn cond_branch_wf(self, op: OpId) -> bool {
        &&& self.ir.op(op) is Some
        &&& 1 + self.group_size(op, 1) + self.group_size(op, 2) <= self.ir.op(
            op,
        )->0.operands.len()
        &&& self.block_ref_attr(op, "true_dest"@) is Some
        &&& self.block_ref_attr(op, "false_dest"@) is Some
    }

    /// What a conditional branch hands the block it takes where the condition
    /// holds.
    pub open spec fn true_args(self, op: OpId) -> Seq<ValueId> {
        self.ir.op(op)->0.operands.subrange(1, (1 + self.group_size(op, 1)) as int)
    }

    /// What a conditional branch hands the block it takes where the condition
    /// does not hold.
    pub open spec fn false_args(self, op: OpId) -> Seq<ValueId> {
        self.ir.op(op)->0.operands.subrange(
            (1 + self.group_size(op, 1)) as int,
            (1 + self.group_size(op, 1) + self.group_size(op, 2)) as int,
        )
    }
}

/// How many operands of `op` group `k` holds, by the sizes it records.
pub fn group_size(context: &Context, op: OpId, k: usize) -> (n: usize)
    requires
        context.inv(),
        context@.ir.op(op) is Some,
        context@.group_size(op, k as int) <= usize::MAX,
    ensures
        n == context@.group_size(op, k as int),
{
    match sizes_of(&context.op_attributes(op)) {
        Some(items) => {
            if k < items.len() {
                assert(attr_views(items@)[k as int] == crate::attributes::attr_view(
                    items@[k as int],
                ));
                size_of_item(&items[k]) as usize
            } else {
                0
            }
        },
        None => 0,
    }
}

/// The operands of `op` from `start` up to `end`.
pub fn operand_slice(context: &Context, op: OpId, start: usize, end: usize) -> (r: Vec<ValueId>)
    requires
        context.inv(),
        context@.ir.op(op) is Some,
        start <= end <= context@.ir.op(op)->0.operands.len(),
    ensures
        r@ == context@.ir.op(op)->0.operands.subrange(start as int, end as int),
{
    let all = context.operands_of(op);
    let mut r: Vec<ValueId> = Vec::new();
    let mut i: usize = start;
    while i < end
        invariant
            start <= i <= end,
            end <= all.len(),
            r@ =~= all@.subrange(start as int, i as int),
        decreases end - i,
    {
        r.push(all[i]);
        i += 1;
    }
    r
}

/// A successor as it is written: `^bbN`, and the arguments with their types
/// where it is handed any.
pub open spec fn successor_text(
    fmt: FormatView,
    context: ContextView,
    block: BlockId,
    args: Seq<ValueId>,
) -> Seq<char> {
    "^bb"@ + decimal(fmt.block_number(block) as nat) + if args.len() == 0 {
        Seq::empty()
    } else {
        context.typed_args(args)
    }
}

/// A successor as it is written.
pub fn successor_string(
    fmt: &IRFormatter,
    context: &Context,
    block: BlockId,
    args: &Vec<ValueId>,
) -> (s: String)
    requires
        context.inv(),
        context@.values_typed(args@),
    ensures
        s@ == successor_text(fmt@, context@, block, args@),
{
    let number = decimal_string(fmt.region_block_number(block) as u64);
    if args.len() == 0 {
        let s = cat2("^bb", number.as_str());
        assert(s@ =~= "^bb"@ + number@ + Seq::<char>::empty());
        s
    } else {
        cat3("^bb", number.as_str(), typed_args_text(context, args).as_str())
    }
}

impl Terminator for BranchOp {
    open spec fn successor_blocks(&self, context: ContextView) -> Seq<BlockId> {
        seq![context.block_ref_attr(self.0.id, "dest"@)->0]
    }

    open spec fn terminates(&self, context: ContextView) -> bool {
        context.block_ref_attr(self.0.id, "dest"@) is Some
    }

    fn successors(&self, context: &Context) -> (r: Vec<BlockId>) {
        let mut r: Vec<BlockId> = Vec::new();
        r.push(self.dest(context));
        assert(r@ =~= self.successor_blocks(context@));
        r
    }
}

impl BranchOp {
    /// The block jumped to.
    pub fn dest(&self, context: &Context) -> (b: BlockId)
        requires
            context.inv(),
            context@.block_ref_attr(self.0.id, "dest"@) is Some,
        ensures
            context@.block_ref_attr(self.0.id, "dest"@) == Some(b),
    {
        block_ref_attr(context, self.0.id, "dest").unwrap()
    }

    /// The values forwarded to the destination block's arguments.
    pub fn dest_args(&self, context: &Context) -> (r: Vec<ValueId>)
        requires
            context.inv(),
            context@.ir.op(self.0.id) is Some,
        ensures
            r@ == context@.ir.op(self.0.id)->0.operands,
    {
        copy_list(context.operands_of(self.0.id))
    }

    /// Prints the branch.
    pub fn custom_print(&self, context: &Context, fmt: &mut IRFormatter)
        requires
            context.inv(),
            context@.ir.op(self.0.id) is Some,
            context@.values_typed(context@.ir.op(self.0.id)->0.operands),
            context@.block_ref_attr(self.0.id, "dest"@) is Some,
        ensures
            final(fmt)@ == old(fmt)@.written(
                "br "@ + successor_text(
                    old(fmt)@,
                    context@,
                    context@.block_ref_attr(self.0.id, "dest"@)->0,
                    context@.ir.op(self.0.id)->0.operands,
                ) + "\n"@,
            ),
    {
        let args = self.dest_args(context);
        let successor = successor_string(fmt, context, self.dest(context), &args);
        let text = cat3("br ", successor.as_str(), "\n");
        fmt.write(text.as_str());
    }
}

impl BranchOpBuilder {
    /// A branch to nowhere yet.
    pub fn new() -> (r: Self)
        ensures
            r.0@ == BuilderView::fresh("builtin"@, "br"@),
    {
        BranchOpBuilder(OpBuilder::new("builtin", "br"))
    }

    /// With the values forwarded.
    pub fn dest_args(self, args: Vec<ValueId>) -> (r: Self)
        ensures
            r.0@ == self.0@.with_group(args@).with_segments(),
    {
        BranchOpBuilder(self.0.operands(args).segments())
    }

    /// With the block jumped to.
    pub fn dest(self, block: BlockId) -> (r: Self)
        ensures
            r.0@ == self.0@.with_attr("dest"@, AttrView::Block(block)),
    {
        BranchOpBuilder(self.0.attr("dest", AttributeValue::Block(block)))
    }

    /// Stores the branch.
    pub fn build(self, context: &mut Context) -> (op: BranchOp)
        requires
            old(context).inv(),
            self.0@.fits(old(context)@),
        ensures
            final(context).inv(),
            final(context)@ == self.0@.built(old(context)@),
            op.0.id == OpId(old(context)@.ir.ops.now.len() as u32),
            final(context)@.ir.op(op.0.id) == Some(self.0@.op(old(context)@)),
    {
        BranchOp(self.0.build(context))
    }
}

impl Terminator for CondBranchOp {
    open spec fn successor_blocks(&self, context: ContextView) -> Seq<BlockId> {
        seq![
            context.block_ref_attr(self.0.id, "true_dest"@)->0,
            context.block_ref_attr(self.0.id, "false_dest"@)->0,
        ]
    }

    open spec fn terminates(&self, context: ContextView) -> bool {
        context.block_ref_attr(self.0.id, "true_dest"@) is Some && context.block_ref_attr(
            self.0.id,
            "false_dest"@,
        ) is Some
    }

    fn successors(&self, context: &Context) -> (r: Vec<BlockId>) {
        let mut r: Vec<BlockId> = Vec::new();
        r.push(self.true_dest(context));
        r.push(self.false_dest(context));
        assert(r@ =~= self.successor_blocks(context@));
        r
    }
}

impl CondBranchOp {
    /// The condition.
    pub fn condition(&self, context: &Context) -> (v: ValueId)
        requires
            context.inv(),
            context@.ir.op(self.0.id) is Some,
            context@.ir.op(self.0.id)->0.operands.len() > 0,
        ensures
            v == context@.ir.op(self.0.id)->0.operands[0],
    {
        context.operands_of(self.0.id)[0]
    }

    /// The block taken where the condition holds.
    pub fn true_dest(&self, context: &Context) -> (b: BlockId)
        requires
            context.inv(),
            context@.block_ref_attr(self.0.id, "true_dest"@) is Some,
        ensures
            context@.block_ref_attr(self.0.id, "true_dest"@) == Some(b),
    {
        block_ref_attr(context, self.0.id, "true_dest").unwrap()
    }

    /// The block taken where the condition does not hold.
    pub fn false_dest(&self, context: &Context) -> (b: BlockId)
        requires
            context.inv(),
            context@.block_ref_attr(self.0.id, "false_dest"@) is Some,
        ensures
            context@.block_ref_attr(self.0.id, "false_dest"@) == Some(b),
    {
        block_ref_attr(context, self.0.id, "false_dest").unwrap()
    }

    /// The values forwarded to the true successor's block arguments.
    pub fn true_args(&self, context: &Context) -> (r: Vec<ValueId>)
        requires
            context.inv(),
            context@.cond_branch_wf(self.0.id),
        ensures
            r@ == context@.true_args(self.0.id),
    {
        let all: usize = context.operands_of(self.0.id).len();
        let t: usize = group_size(context, self.0.id, 1);
        operand_slice(context, self.0.id, 1, 1 + t)
    }

    /// The values forwarded to the false successor's block arguments.
    pub fn false_args(&self, context: &Context) -> (r: Vec<ValueId>)
        requires
            context.inv(),
            context@.cond_branch_wf(self.0.id),
        ensures
            r@ == context@.false_args(self.0.id),
    {
        let all: usize = context.operands_of(self.0.id).len();
        let t: usize = group_size(context, self.0.id, 1);
        let f: usize = group_size(context, self.0.id, 2);
        operand_slice(context, self.0.id, 1 + t, 1 + t + f)
    }

    /// Prints the branch.
    pub fn custom_print(&self, context: &Context, fmt: &mut IRFormatter)
        requires
            context.inv(),
            context@.cond_branch_wf(self.0.id),
            context@.values_typed(context@.ir.op(self.0.id)->0.operands),
        ensures
            final(fmt)@ == old(fmt)@.written(
                "cond_br "@ + value_name(context@.ir.op(self.0.id)->0.operands[0]) + ", "@
                    + successor_text(
                    old(fmt)@,
                    context@,
                    context@.block_ref_attr(self.0.id, "true_dest"@)->0,
                    context@.true_args(self.0.id),
                ) + ", "@ + (successor_text(
                    old(fmt)@,
                    context@,
                    context@.block_ref_attr(self.0.id, "false_dest"@)->0,
                    context@.false_args(self.0.id),
                ) + "\n"@),
            ),
    {
        let taken = self.true_args(context);
        let other = self.false_args(context);
        proof {
            let all = context@.ir.op(self.0.id)->0.operands;
            let t = context@.group_size(self.0.id, 1);
            assert forall|i: int| 0 <= i < taken@.len() implies context@.ir.value(
                #[trigger] taken@[i],
            ) is Some && context@.value_sound(taken@[i]) by {
                assert(taken@[i] == all[1 + i]);
            }
            assert forall|i: int| 0 <= i < other@.len() implies context@.ir.value(
                #[trigger] other@[i],
            ) is Some && context@.value_sound(other@[i]) by {
                assert(other@[i] == all[1 + t + i]);
            }
        }
        let first = successor_string(fmt, context, self.true_dest(context), &taken);
        let second = successor_string(fmt, context, self.false_dest(context), &other);
        let tail = cat2(second.as_str(), "\n");
        let text = cat6(
            "cond_br ",
            value_text(self.condition(context)).as_str(),
            ", ",
            first.as_str(),
            ", ",
            tail.as_str(),
        );
        fmt.write(text.as_str());
    }
}

impl CondBranchOpBuilder {
    /// A branch to nowhere yet.
    pub fn new() -> (r: Self)
        ensures
            r.0@ == BuilderView::fresh("builtin"@, "cond_br"@),
    {
        CondBranchOpBuilder(OpBuilder::new("builtin", "cond_br"))
    }

    /// With the condition and the values each successor is handed.
    pub fn operands(
        self,
        condition: ValueId,
        true_args: Vec<ValueId>,
        false_args: Vec<ValueId>,
    ) -> (r: Self)
        ensures
            r.0@ == self.0@.with_group(seq![condition]).with_group(true_args@).with_group(
                false_args@,
            ).with_segments(),
    {
        CondBranchOpBuilder(
            self.0.operand(condition).operands(true_args).operands(false_args).segments(),
        )
    }

    /// With the two blocks.
    pub fn dests(self, true_dest: BlockId, false_dest: BlockId) -> (r: Self)
        ensures
            r.0@ == self.0@.with_attr("true_dest"@, AttrView::Block(true_dest)).with_attr(
                "false_dest"@,
                AttrView::Block(false_dest),
            ),
    {
        CondBranchOpBuilder(
            self.0.attr("true_dest", AttributeValue::Block(true_dest)).attr(
                "false_dest",
                AttributeValue::Block(false_dest),
            ),
        )
    }

    /// Stores the branch.
    pub fn build(self, context: &mut Context) -> (op: CondBranchOp)
        requires
            old(context).inv(),
            self.0@.fits(old(context)@),
        ensures
            final(context).inv(),
            final(context)@ == self.0@.built(old(context)@),
            op.0.id == OpId(old(context)@.ir.ops.now.len() as u32),
            final(context)@.ir.op(op.0.id) == Some(self.0@.op(old(context)@)),
    {
        CondBranchOp(self.0.build(context))
    }
}

/// The two groups of arguments a conditional branch was built with are the
/// groups read back.
pub proof fn branch_arguments_are_read_back(
    context: ContextView,
    op: OpId,
    condition: ValueId,
    taken: Seq<ValueId>,
    other: Seq<ValueId>,
)
    requires
        context.ir.op(op) is Some,
        context.ir.op(op)->0.operands == seq![condition] + taken + other,
        recorded_sizes(context.ir.op(op)->0.attributes) == Some(
            seq![
                AttrView::UInt(1),
                AttrView::UInt(taken.len()),
                AttrView::UInt(other.len()),
            ],
        ),
    ensures
        context.true_args(op) == taken,
        context.false_args(op) == other,
{
    assert(context.true_args(op) =~= taken);
    assert(context.false_args(op) =~= other);
}

} // verus!

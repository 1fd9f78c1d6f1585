//! What an operation owns: the entities that leave the IR with it.
use vstd::prelude::*;
use crate::context::Context;
use crate::ids::BlockId;
use crate::ids::OpId;
use crate::ids::RegionId;
use crate::ids::ValueId;
use crate::ir::copy_list;
use crate::ir::slots_forgotten;
use crate::ir::Use;
use crate::overlay::LayerView;
use crate::ir::IrView;
use crate::ir::Parent;
use crate::seqs::add_contains;
use crate::seqs::drop_last_contains;
use crate::seqs::push_contains;
use crate::seqs::take_contains;

verus! {

/// Entities an erase reclaims.
pub struct Owned {
    pub ops: Vec<OpId>,
    pub values: Vec<ValueId>,
    pub blocks: Vec<BlockId>,
    pub regions: Vec<RegionId>,
}

/// Whether `op` owns `region`: it lists the region, and the region's own link
/// still names it. A rewrite that lifts a region out of an operation it is
/// destroying leaves the region listed there, and that stale listing does not
/// count.
pub open spec fn owns_region(ir: IrView, op: OpId, region: RegionId) -> bool {
    &&& ir.op(op) is Some
    &&& ir.op(op)->0.regions.contains(region)
    &&& ir.region(region) is Some
    &&& ir.region(region)->0.parent_op == Some(op)
}

/// Whether the ordered `region` holds `block` and the block's link agrees.
pub open spec fn holds_block(ir: IrView, region: RegionId, block: BlockId) -> bool {
    &&& ir.region(region) is Some
    &&& ir.region(region)->0.body is Blocks
    &&& ir.region(region)->0.body->Blocks_0.contains(block)
    &&& ir.block(block) is Some
    &&& ir.block(block)->0.parent == Some(region)
}

/// Whether the unordered `region` holds `op` and the operation's link agrees.
pub open spec fn holds_node(ir: IrView, region: RegionId, op: OpId) -> bool {
    &&& ir.region(region) is Some
    &&& ir.region(region)->0.body is Nodes
    &&& ir.region(region)->0.body->Nodes_1.contains(op)
    &&& ir.op(op) is Some
    &&& ir.op(op)->0.parent == Some(Parent::Region(region))
}

/// Whether `block` holds `op` and the operation's link agrees.
pub open spec fn holds_op(ir: IrView, block: BlockId, op: OpId) -> bool {
    &&& ir.block(block) is Some
    &&& ir.block(block)->0.operations.contains(op)
    &&& ir.op(op) is Some
    &&& ir.op(op)->0.parent == Some(Parent::Block(block))
}

/// Whether `op` is live and is one of `ops`, or sits under one of `ops` or
/// `blocks` within `depth` steps.
pub open spec fn op_within(
    ir: IrView,
    ops: Seq<OpId>,
    blocks: Seq<BlockId>,
    op: OpId,
    depth: nat,
) -> bool
    decreases depth,
{
    ir.op(op) is Some && (ops.contains(op) || (depth > 0 && ((exists|block: BlockId|
        #[trigger] holds_op(ir, block, op) && block_within(
            ir,
            ops,
            blocks,
            block,
            (depth - 1) as nat,
        )) || (exists|owner: OpId, region: RegionId| #[trigger]
        owns_region(ir, owner, region) && holds_node(ir, region, op) && op_within(
            ir,
            ops,
            blocks,
            owner,
            (depth - 1) as nat,
        )))))
}

/// Whether `block` is live and is one of `blocks`, or sits under one of `ops`
/// or `blocks` within `depth` steps.
pub open spec fn block_within(
    ir: IrView,
    ops: Seq<OpId>,
    blocks: Seq<BlockId>,
    block: BlockId,
    depth: nat,
) -> bool
    decreases depth,
{
    ir.block(block) is Some && (blocks.contains(block) || (depth > 0 && exists|
        owner: OpId,
        region: RegionId,
    | #[trigger]
        owns_region(ir, owner, region) && holds_block(ir, region, block) && op_within(
            ir,
            ops,
            blocks,
            owner,
            (depth - 1) as nat,
        )))
}

/// Whether `op` leaves the IR with `ops` and `blocks`.
pub open spec fn op_owned(ir: IrView, ops: Seq<OpId>, blocks: Seq<BlockId>, op: OpId) -> bool {
    exists|depth: nat| op_within(ir, ops, blocks, op, depth)
}

/// Whether `block` leaves the IR with `ops` and `blocks`.
pub open spec fn block_owned(
    ir: IrView,
    ops: Seq<OpId>,
    blocks: Seq<BlockId>,
    block: BlockId,
) -> bool {
    exists|depth: nat| block_within(ir, ops, blocks, block, depth)
}

/// Whether `region` leaves the IR with `ops` and `blocks`.
pub open spec fn region_owned(
    ir: IrView,
    ops: Seq<OpId>,
    blocks: Seq<BlockId>,
    region: RegionId,
) -> bool {
    exists|owner: OpId| #[trigger]
        owns_region(ir, owner, region) && op_owned(ir, ops, blocks, owner)
}

/// Whether `value` is an argument of a block.
pub open spec fn is_argument(ir: IrView, value: ValueId) -> bool {
    ir.value(value) is Some && ir.value(value)->0.block is Some
}

/// Whether `value` leaves the IR with `ops` and `blocks`: a result or a port
/// that no block has adopted as its argument, or an argument of a block that
/// leaves.
pub open spec fn value_owned(
    ir: IrView,
    ops: Seq<OpId>,
    blocks: Seq<BlockId>,
    value: ValueId,
) -> bool {
    ||| exists|op: OpId| #[trigger]
        op_owned(ir, ops, blocks, op) && result_of(ir, op, value)
    ||| exists|region: RegionId| #[trigger]
        region_owned(ir, ops, blocks, region) && port_of(ir, region, value)
    ||| exists|block: BlockId| #[trigger]
        block_owned(ir, ops, blocks, block) && argument_of(ir, block, value)
}

/// Whether `value` is a result of `op` that is no block's argument.
pub open spec fn result_of(ir: IrView, op: OpId, value: ValueId) -> bool {
    ir.op(op) is Some && ir.op(op)->0.results.contains(value) && !is_argument(ir, value)
}

/// Whether `value` is a port of the unordered `region` that is no block's
/// argument.
pub open spec fn port_of(ir: IrView, region: RegionId, value: ValueId) -> bool {
    &&& ir.region(region) is Some
    &&& ir.region(region)->0.body is Nodes
    &&& exists|i: int|
        0 <= i < ir.region(region)->0.body->Nodes_0.len() && (
        #[trigger] ir.region(region)->0.body->Nodes_0[i]).id == value
    &&& !is_argument(ir, value)
}

/// Whether `block` lists `value` among its arguments.
pub open spec fn argument_of(ir: IrView, block: BlockId, value: ValueId) -> bool {
    ir.block(block) is Some && exists|i: int|
        0 <= i < ir.block(block)->0.arguments.len() && (
        #[trigger] ir.block(block)->0.arguments[i]).id == value
}

spec fn unseen(seen: Seq<bool>) -> nat
    decreases seen.len(),
{
    if seen.len() == 0 {
        0
    } else {
        unseen(seen.drop_last()) + if seen.last() {
            0nat
        } else {
            1nat
        }
    }
}

proof fn seeing_one(seen: Seq<bool>, i: int)
    requires
        0 <= i < seen.len(),
        !seen[i],
    ensures
        unseen(seen.update(i, true)) < unseen(seen),
    decreases seen.len(),
{
    if i == seen.len() - 1 {
        assert(seen.update(i, true).drop_last() =~= seen.drop_last());
    } else {
        assert(seen.update(i, true).drop_last() =~= seen.drop_last().update(i, true));
        seeing_one(seen.drop_last(), i);
    }
}

proof fn step_to_node(
    ir: IrView,
    ops: Seq<OpId>,
    blocks: Seq<BlockId>,
    owner: OpId,
    region: RegionId,
    op: OpId,
)
    requires
        op_owned(ir, ops, blocks, owner),
        owns_region(ir, owner, region),
        holds_node(ir, region, op),
    ensures
        op_owned(ir, ops, blocks, op),
{
    let depth = choose|depth: nat| op_within(ir, ops, blocks, owner, depth);
    assert(op_within(ir, ops, blocks, op, depth + 1));
}

proof fn step_to_block(
    ir: IrView,
    ops: Seq<OpId>,
    blocks: Seq<BlockId>,
    owner: OpId,
    region: RegionId,
    block: BlockId,
)
    requires
        op_owned(ir, ops, blocks, owner),
        owns_region(ir, owner, region),
        holds_block(ir, region, block),
    ensures
        block_owned(ir, ops, blocks, block),
{
    let depth = choose|depth: nat| op_within(ir, ops, blocks, owner, depth);
    assert(block_within(ir, ops, blocks, block, depth + 1));
}

proof fn step_to_op(ir: IrView, ops: Seq<OpId>, blocks: Seq<BlockId>, block: BlockId, op: OpId)
    requires
        block_owned(ir, ops, blocks, block),
        holds_op(ir, block, op),
    ensures
        op_owned(ir, ops, blocks, op),
{
    let depth = choose|depth: nat| block_within(ir, ops, blocks, block, depth);
    assert(op_within(ir, ops, blocks, op, depth + 1));
}

/// The state of the walk: what was collected, and what is still to visit.
pub struct Walk {
    owned: Owned,
    seen_ops: Vec<bool>,
    seen_blocks: Vec<bool>,
    ops: Vec<OpId>,
    blocks: Vec<BlockId>,
}

spec fn seen_op(walk: Walk, op: OpId) -> bool {
    op.0 < walk.seen_ops.len() && walk.seen_ops[op.0 as int]
}

spec fn seen_block(walk: Walk, block: BlockId) -> bool {
    block.0 < walk.seen_blocks.len() && walk.seen_blocks[block.0 as int]
}

/// The operation was visited, or is to be.
spec fn found_op(walk: Walk, op: OpId) -> bool {
    seen_op(walk, op) || walk.ops@.contains(op)
}

/// The block was visited, or is to be.
spec fn found_block(walk: Walk, block: BlockId) -> bool {
    seen_block(walk, block) || walk.blocks@.contains(block)
}

/// What was collected is what visited entities own.
spec fn collected(ir: IrView, walk: Walk) -> bool {
    &&& walk.seen_ops.len() == ir.ops.now.len()
    &&& walk.seen_blocks.len() == ir.blocks.now.len()
    &&& forall|op: OpId| #[trigger]
        walk.owned.ops@.contains(op) <==> seen_op(walk, op)
    &&& forall|block: BlockId| #[trigger]
        walk.owned.blocks@.contains(block) <==> seen_block(walk, block)
    &&& forall|op: OpId| #[trigger] seen_op(walk, op) ==> ir.op(op) is Some
    &&& forall|block: BlockId| #[trigger] seen_block(walk, block) ==> ir.block(block) is Some
    &&& forall|region: RegionId| #[trigger]
        walk.owned.regions@.contains(region) <==> exists|op: OpId| #[trigger]
            owns_region(ir, op, region) && seen_op(walk, op)
    &&& forall|value: ValueId| #[trigger]
        walk.owned.values@.contains(value) <==> value_collected(ir, walk, value)
}

spec fn value_collected(ir: IrView, walk: Walk, value: ValueId) -> bool {
    ||| exists|op: OpId| #[trigger] seen_op(walk, op) && result_of(ir, op, value)
    ||| exists|op: OpId, region: RegionId| #[trigger]
        owns_region(ir, op, region) && seen_op(walk, op) && port_of(ir, region, value)
    ||| exists|block: BlockId| #[trigger] seen_block(walk, block) && argument_of(ir, block, value)
}

/// Nothing was found that the roots do not own.
spec fn only_owned(ir: IrView, ops: Seq<OpId>, blocks: Seq<BlockId>, walk: Walk) -> bool {
    &&& forall|op: OpId| #[trigger]
        found_op(walk, op) && ir.op(op) is Some ==> op_owned(ir, ops, blocks, op)
    &&& forall|block: BlockId| #[trigger]
        found_block(walk, block) && ir.block(block) is Some ==> block_owned(ir, ops, blocks, block)
}

/// Everything directly under a visited entity was found, and so were the roots.
spec fn frontier_found(ir: IrView, ops: Seq<OpId>, blocks: Seq<BlockId>, walk: Walk) -> bool {
    &&& forall|op: OpId| #[trigger] ops.contains(op) && ir.op(op) is Some ==> found_op(walk, op)
    &&& forall|block: BlockId| #[trigger]
        blocks.contains(block) && ir.block(block) is Some ==> found_block(walk, block)
    &&& forall|owner: OpId, region: RegionId, op: OpId|
        #![trigger owns_region(ir, owner, region), holds_node(ir, region, op)]
        seen_op(walk, owner) && owns_region(ir, owner, region) && holds_node(ir, region, op)
            ==> found_op(walk, op)
    &&& forall|owner: OpId, region: RegionId, block: BlockId|
        #![trigger owns_region(ir, owner, region), holds_block(ir, region, block)]
        seen_op(walk, owner) && owns_region(ir, owner, region) && holds_block(ir, region, block)
            ==> found_block(walk, block)
    &&& forall|block: BlockId, op: OpId| #[trigger]
        holds_op(ir, block, op) && seen_block(walk, block) ==> found_op(walk, op)
}

proof fn walk_is_complete(
    ir: IrView,
    ops: Seq<OpId>,
    blocks: Seq<BlockId>,
    walk: Walk,
    depth: nat,
)
    requires
        frontier_found(ir, ops, blocks, walk),
        walk.ops@.len() == 0,
        walk.blocks@.len() == 0,
    ensures
        forall|op: OpId| #[trigger] op_within(ir, ops, blocks, op, depth) ==> seen_op(walk, op),
        forall|block: BlockId| #[trigger]
            block_within(ir, ops, blocks, block, depth) ==> seen_block(walk, block),
    decreases depth,
{
    if depth > 0 {
        walk_is_complete(ir, ops, blocks, walk, (depth - 1) as nat);
    }
    assert forall|op: OpId| #[trigger] op_within(ir, ops, blocks, op, depth) implies seen_op(
        walk,
        op,
    ) by {
        if ops.contains(op) {
            assert(found_op(walk, op));
        } else if exists|block: BlockId| #[trigger]
            holds_op(ir, block, op) && block_within(ir, ops, blocks, block, (depth - 1) as nat) {
            let block = choose|block: BlockId| #[trigger]
                holds_op(ir, block, op) && block_within(ir, ops, blocks, block, (depth - 1) as nat);
            assert(seen_block(walk, block));
            assert(found_op(walk, op));
        } else {
            let (owner, region) = choose|owner: OpId, region: RegionId| #[trigger]
                owns_region(ir, owner, region) && holds_node(ir, region, op) && op_within(
                    ir,
                    ops,
                    blocks,
                    owner,
                    (depth - 1) as nat,
                );
            assert(seen_op(walk, owner));
            assert(found_op(walk, op));
        }
    }
    assert forall|block: BlockId| #[trigger]
        block_within(ir, ops, blocks, block, depth) implies seen_block(walk, block) by {
        if blocks.contains(block) {
            assert(found_block(walk, block));
        } else {
            let (owner, region) = choose|owner: OpId, region: RegionId| #[trigger]
                owns_region(ir, owner, region) && holds_block(ir, region, block) && op_within(
                    ir,
                    ops,
                    blocks,
                    owner,
                    (depth - 1) as nat,
                );
            assert(seen_op(walk, owner));
            assert(found_block(walk, block));
        }
    }
}

impl Context {
    /// The regions `op` owns, in the order it lists them.
    fn owned_regions(&self, op: OpId) -> (r: Vec<RegionId>)
        requires
            self.inv(),
            self@.ir.op(op) is Some,
        ensures
            forall|region: RegionId| #[trigger]
                r@.contains(region) <==> owns_region(self@.ir, op, region),
    {
        let listed = copy_list(self.regions_of(op));
        let mut r: Vec<RegionId> = Vec::new();
        let mut i: usize = 0;
        while i < listed.len()
            invariant
                self.inv(),
                self@.ir.op(op) is Some,
                listed@ == self@.ir.op(op)->0.regions,
                i <= listed.len(),
                forall|region: RegionId| #[trigger]
                    r@.contains(region) <==> listed@.take(i as int).contains(region)
                        && self@.ir.region(region) is Some && self@.ir.region(region)->0.parent_op
                        == Some(op),
            decreases listed.len() - i,
        {
            let region = listed[i];
            let ghost before = r@;
            let mut mine = false;
            if self.has_region(region) {
                mine = match self.region_parent_op(region) {
                    Some(owner) => owner == op,
                    None => false,
                };
            }
            proof {
                take_contains(listed@, i as int);
                push_contains(before, region);
            }
            if mine {
                r.push(region);
            }
            i += 1;
        }
        assert(listed@.take(i as int) =~= listed@);
        r
    }

    /// The operations `region` holds whose link agrees.
    fn held_nodes(&self, region: RegionId) -> (r: Vec<OpId>)
        requires
            self.inv(),
        ensures
            forall|op: OpId| #[trigger] r@.contains(op) <==> holds_node(self@.ir, region, op),
    {
        let mut r: Vec<OpId> = Vec::new();
        if !self.region_is_nodes(region) {
            return r;
        }
        let listed = self.region_op_ids(region);
        let mut i: usize = 0;
        while i < listed.len()
            invariant
                self.inv(),
                self@.is_nodes(region),
                listed@ == self@.ir.region(region)->0.body->Nodes_1,
                i <= listed.len(),
                forall|op: OpId| #[trigger]
                    r@.contains(op) <==> listed@.take(i as int).contains(op) && self@.ir.op(
                        op,
                    ) is Some && self@.ir.op(op)->0.parent == Some(Parent::Region(region)),
            decreases listed.len() - i,
        {
            let op = listed[i];
            let ghost before = r@;
            proof {
                take_contains(listed@, i as int);
                push_contains(before, op);
            }
            let mine = match self.parent_nodes_region(op) {
                Some(held) => held == region,
                None => false,
            };
            if mine {
                r.push(op);
            }
            i += 1;
        }
        assert(listed@.take(i as int) =~= listed@);
        r
    }

    /// The blocks `region` holds whose link agrees.
    fn held_blocks(&self, region: RegionId) -> (r: Vec<BlockId>)
        requires
            self.inv(),
        ensures
            forall|block: BlockId| #[trigger]
                r@.contains(block) <==> holds_block(self@.ir, region, block),
    {
        let mut r: Vec<BlockId> = Vec::new();
        if !self.has_region(region) || self.region_is_nodes(region) {
            return r;
        }
        let listed = self.region_block_ids(region);
        let mut i: usize = 0;
        while i < listed.len()
            invariant
                self.inv(),
                self@.ir.region(region) is Some,
                self@.ir.region(region)->0.body is Blocks,
                listed@ == self@.ir.region(region)->0.body->Blocks_0,
                i <= listed.len(),
                forall|block: BlockId| #[trigger]
                    r@.contains(block) <==> listed@.take(i as int).contains(block)
                        && self@.ir.block(block) is Some && self@.ir.block(block)->0.parent == Some(
                        region,
                    ),
            decreases listed.len() - i,
        {
            let block = listed[i];
            let ghost before = r@;
            proof {
                take_contains(listed@, i as int);
                push_contains(before, block);
            }
            let mine = match self.parent_region(block) {
                Some(held) => held == region,
                None => false,
            };
            if mine {
                r.push(block);
            }
            i += 1;
        }
        assert(listed@.take(i as int) =~= listed@);
        r
    }

    /// The operations `block` holds whose link agrees.
    fn held_ops(&self, block: BlockId) -> (r: Vec<OpId>)
        requires
            self.inv(),
            self@.ir.block(block) is Some,
        ensures
            forall|op: OpId| #[trigger] r@.contains(op) <==> holds_op(self@.ir, block, op),
    {
        let listed = copy_list(&self.block_ref(block).operations);
        let mut r: Vec<OpId> = Vec::new();
        let mut i: usize = 0;
        while i < listed.len()
            invariant
                self.inv(),
                self@.ir.block(block) is Some,
                listed@ == self@.ir.block(block)->0.operations,
                i <= listed.len(),
                forall|op: OpId| #[trigger]
                    r@.contains(op) <==> listed@.take(i as int).contains(op) && self@.ir.op(
                        op,
                    ) is Some && self@.ir.op(op)->0.parent == Some(Parent::Block(block)),
            decreases listed.len() - i,
        {
            let op = listed[i];
            let ghost before = r@;
            proof {
                take_contains(listed@, i as int);
                push_contains(before, op);
            }
            let mine = match self.parent_block(op) {
                Some(held) => held == block,
                None => false,
            };
            if mine {
                r.push(op);
            }
            i += 1;
        }
        assert(listed@.take(i as int) =~= listed@);
        r
    }

    /// The results of `op` that are no block's arguments.
    fn plain_results(&self, op: OpId) -> (r: Vec<ValueId>)
        requires
            self.inv(),
            self@.ir.op(op) is Some,
        ensures
            forall|value: ValueId| #[trigger]
                r@.contains(value) <==> result_of(self@.ir, op, value),
    {
        let listed = copy_list(self.results_of(op));
        let mut r: Vec<ValueId> = Vec::new();
        let mut i: usize = 0;
        while i < listed.len()
            invariant
                self.inv(),
                self@.ir.op(op) is Some,
                listed@ == self@.ir.op(op)->0.results,
                i <= listed.len(),
                forall|value: ValueId| #[trigger]
                    r@.contains(value) <==> listed@.take(i as int).contains(value) && !is_argument(
                        self@.ir,
                        value,
                    ),
            decreases listed.len() - i,
        {
            let value = listed[i];
            let ghost before = r@;
            proof {
                take_contains(listed@, i as int);
                push_contains(before, value);
            }
            if !self.is_block_argument(value) {
                r.push(value);
            }
            i += 1;
        }
        assert(listed@.take(i as int) =~= listed@);
        r
    }

    /// The ports of an unordered region that are no block's arguments.
    fn plain_ports(&self, region: RegionId) -> (r: Vec<ValueId>)
        requires
            self.inv(),
        ensures
            forall|value: ValueId| #[trigger]
                r@.contains(value) <==> port_of(self@.ir, region, value),
    {
        let mut r: Vec<ValueId> = Vec::new();
        if !self.region_is_nodes(region) {
            return r;
        }
        let listed = self.region_ports(region);
        let mut i: usize = 0;
        while i < listed.len()
            invariant
                self.inv(),
                self@.is_nodes(region),
                listed@ == self@.ir.region(region)->0.body->Nodes_0,
                i <= listed.len(),
                forall|value: ValueId| #[trigger]
                    r@.contains(value) <==> !is_argument(self@.ir, value) && exists|j: int|
                        0 <= j < i && (#[trigger] listed@[j]).id == value,
            decreases listed.len() - i,
        {
            let value = listed[i].id;
            let ghost before = r@;
            proof {
                push_contains(before, value);
            }
            if !self.is_block_argument(value) {
                r.push(value);
            }
            proof {
                assert forall|v: ValueId| #[trigger]
                    r@.contains(v) <==> !is_argument(self@.ir, v) && exists|j: int|
                        0 <= j < i + 1 && (#[trigger] listed@[j]).id == v by {
                    assert(before.contains(v) <==> !is_argument(self@.ir, v) && exists|j: int|
                        0 <= j < i && (#[trigger] listed@[j]).id == v);
                    if v == value {
                        assert(listed@[i as int].id == v);
                    }
                }
            }
            i += 1;
        }
        r
    }

    /// The arguments of `block`.
    fn argument_ids(&self, block: BlockId) -> (r: Vec<ValueId>)
        requires
            self.inv(),
            self@.ir.block(block) is Some,
        ensures
            forall|value: ValueId| #[trigger]
                r@.contains(value) <==> argument_of(self@.ir, block, value),
    {
        let listed = copy_list(&self.block_ref(block).arguments);
        let mut r: Vec<ValueId> = Vec::new();
        let mut i: usize = 0;
        while i < listed.len()
            invariant
                self.inv(),
                self@.ir.block(block) is Some,
                listed@ == self@.ir.block(block)->0.arguments,
                i <= listed.len(),
                forall|value: ValueId| #[trigger]
                    r@.contains(value) <==> exists|j: int|
                        0 <= j < i && (#[trigger] listed@[j]).id == value,
            decreases listed.len() - i,
        {
            let value = listed[i].id;
            let ghost before = r@;
            proof {
                push_contains(before, value);
            }
            r.push(value);
            proof {
                assert forall|v: ValueId| #[trigger]
                    r@.contains(v) <==> exists|j: int|
                        0 <= j < i + 1 && (#[trigger] listed@[j]).id == v by {
                    assert(before.contains(v) <==> exists|j: int|
                        0 <= j < i && (#[trigger] listed@[j]).id == v);
                    if v == value {
                        assert(listed@[i as int].id == v);
                    }
                }
            }
            i += 1;
        }
        r
    }

    /// Visits the operation taken from the list last, where it is live and was
    /// not visited before.
    fn visit_op(
        &self,
        walk: &mut Walk,
        op: OpId,
        Ghost(ops): Ghost<Seq<OpId>>,
        Ghost(blocks): Ghost<Seq<BlockId>>,
        Ghost(start): Ghost<Walk>,
    )
        requires
            self.inv(),
            collected(self@.ir, start),
            only_owned(self@.ir, ops, blocks, start),
            frontier_found(self@.ir, ops, blocks, start),
            start.ops@.len() > 0,
            op == start.ops@.last(),
            old(walk).ops@ == start.ops@.drop_last(),
            old(walk).owned == start.owned,
            old(walk).seen_ops == start.seen_ops,
            old(walk).seen_blocks == start.seen_blocks,
            old(walk).blocks == start.blocks,
        ensures
            collected(self@.ir, *final(walk)),
            only_owned(self@.ir, ops, blocks, *final(walk)),
            frontier_found(self@.ir, ops, blocks, *final(walk)),
            unseen(final(walk).seen_blocks@) == unseen(start.seen_blocks@),
            unseen(final(walk).seen_ops@) < unseen(start.seen_ops@) || (unseen(
                final(walk).seen_ops@,
            ) == unseen(start.seen_ops@) && final(walk).ops@.len() < start.ops@.len()
                && final(walk).blocks@.len() == start.blocks@.len()),
    {
        let ghost ir = self@.ir;
        proof {
            drop_last_contains(start.ops@);
        }
        if !self.has_operation(op) || walk.seen_ops[op.0 as usize] {
            proof {
                self.skip_op_keeps(start, *walk, op, ops, blocks);
            }
            return;
        }
        assert(found_op(start, op));
        assert(op_owned(ir, ops, blocks, op));
        let regions = self.owned_regions(op);
        let mut values = self.plain_results(op);
        let mut nodes: Vec<OpId> = Vec::new();
        let mut held: Vec<BlockId> = Vec::new();
        let mut i: usize = 0;
        while i < regions.len()
            invariant
                self.inv(),
                ir == self@.ir,
                i <= regions.len(),
                forall|value: ValueId| #[trigger]
                    values@.contains(value) <==> result_of(ir, op, value) || exists|k: int|
                        0 <= k < i && port_of(ir, #[trigger] regions@[k], value),
                forall|x: OpId| #[trigger]
                    nodes@.contains(x) <==> exists|k: int|
                        0 <= k < i && holds_node(ir, #[trigger] regions@[k], x),
                forall|b: BlockId| #[trigger]
                    held@.contains(b) <==> exists|k: int|
                        0 <= k < i && holds_block(ir, #[trigger] regions@[k], b),
            decreases regions.len() - i,
        {
            let region = regions[i];
            let mut ports = self.plain_ports(region);
            let mut under = self.held_nodes(region);
            let mut within = self.held_blocks(region);
            let ghost v0 = values@;
            let ghost n0 = nodes@;
            let ghost h0 = held@;
            let ghost pv = ports@;
            let ghost nv = under@;
            let ghost hv = within@;
            proof {
                add_contains(v0, pv);
                add_contains(n0, nv);
                add_contains(h0, hv);
            }
            values.append(&mut ports);
            nodes.append(&mut under);
            held.append(&mut within);
            proof {
                assert(values@ =~= v0 + pv);
                assert(nodes@ =~= n0 + nv);
                assert(held@ =~= h0 + hv);
                assert forall|value: ValueId| #[trigger]
                    values@.contains(value) <==> result_of(ir, op, value) || exists|k: int|
                        0 <= k < i + 1 && port_of(ir, #[trigger] regions@[k], value) by {
                    assert(v0.contains(value) <==> result_of(ir, op, value) || exists|k: int|
                        0 <= k < i && port_of(ir, #[trigger] regions@[k], value));
                    assert(pv.contains(value) <==> port_of(ir, regions@[i as int], value));
                }
                assert forall|x: OpId| #[trigger]
                    nodes@.contains(x) <==> exists|k: int|
                        0 <= k < i + 1 && holds_node(ir, #[trigger] regions@[k], x) by {
                    assert(n0.contains(x) <==> exists|k: int|
                        0 <= k < i && holds_node(ir, #[trigger] regions@[k], x));
                    assert(nv.contains(x) <==> holds_node(ir, regions@[i as int], x));
                }
                assert forall|b: BlockId| #[trigger]
                    held@.contains(b) <==> exists|k: int|
                        0 <= k < i + 1 && holds_block(ir, #[trigger] regions@[k], b) by {
                    assert(h0.contains(b) <==> exists|k: int|
                        0 <= k < i && holds_block(ir, #[trigger] regions@[k], b));
                    assert(hv.contains(b) <==> holds_block(ir, regions@[i as int], b));
                }
            }
            i += 1;
        }
        let ghost rv = regions@;
        let ghost vv = values@;
        let ghost nv = nodes@;
        let ghost hv = held@;
        proof {
            seeing_one(start.seen_ops@, op.0 as int);
            push_contains(start.owned.ops@, op);
            add_contains(start.owned.regions@, rv);
            add_contains(start.owned.values@, vv);
            add_contains(start.ops@.drop_last(), nv);
            add_contains(start.blocks@, hv);
            assert forall|value: ValueId| #[trigger]
                vv.contains(value) <==> result_of(ir, op, value) || exists|region: RegionId|
                #[trigger]
                owns_region(ir, op, region) && port_of(ir, region, value) by {
                if exists|k: int| 0 <= k < rv.len() && port_of(ir, #[trigger] rv[k], value) {
                    let k = choose|k: int| 0 <= k < rv.len() && port_of(ir, #[trigger] rv[k], value);
                    assert(rv.contains(rv[k]));
                    assert(owns_region(ir, op, rv[k]));
                }
                if exists|region: RegionId| #[trigger]
                    owns_region(ir, op, region) && port_of(ir, region, value) {
                    let region = choose|region: RegionId| #[trigger]
                        owns_region(ir, op, region) && port_of(ir, region, value);
                    assert(rv.contains(region));
                    let k = choose|k: int| 0 <= k < rv.len() && rv[k] == region;
                    assert(port_of(ir, rv[k], value));
                }
            }
            assert forall|x: OpId| #[trigger]
                nv.contains(x) <==> exists|region: RegionId| #[trigger]
                    owns_region(ir, op, region) && holds_node(ir, region, x) by {
                if exists|k: int| 0 <= k < rv.len() && holds_node(ir, #[trigger] rv[k], x) {
                    let k = choose|k: int| 0 <= k < rv.len() && holds_node(ir, #[trigger] rv[k], x);
                    assert(rv.contains(rv[k]));
                    assert(owns_region(ir, op, rv[k]));
                }
                if exists|region: RegionId| #[trigger]
                    owns_region(ir, op, region) && holds_node(ir, region, x) {
                    let region = choose|region: RegionId| #[trigger]
                        owns_region(ir, op, region) && holds_node(ir, region, x);
                    assert(rv.contains(region));
                    let k = choose|k: int| 0 <= k < rv.len() && rv[k] == region;
                    assert(holds_node(ir, rv[k], x));
                }
            }
            assert forall|b: BlockId| #[trigger]
                hv.contains(b) <==> exists|region: RegionId| #[trigger]
                    owns_region(ir, op, region) && holds_block(ir, region, b) by {
                if exists|k: int| 0 <= k < rv.len() && holds_block(ir, #[trigger] rv[k], b) {
                    let k = choose|k: int|
                        0 <= k < rv.len() && holds_block(ir, #[trigger] rv[k], b);
                    assert(rv.contains(rv[k]));
                    assert(owns_region(ir, op, rv[k]));
                }
                if exists|region: RegionId| #[trigger]
                    owns_region(ir, op, region) && holds_block(ir, region, b) {
                    let region = choose|region: RegionId| #[trigger]
                        owns_region(ir, op, region) && holds_block(ir, region, b);
                    assert(rv.contains(region));
                    let k = choose|k: int| 0 <= k < rv.len() && rv[k] == region;
                    assert(holds_block(ir, rv[k], b));
                }
            }
        }
        let mut regions = regions;
        walk.seen_ops.set(op.0 as usize, true);
        walk.owned.ops.push(op);
        walk.owned.values.append(&mut values);
        walk.owned.regions.append(&mut regions);
        walk.ops.append(&mut nodes);
        walk.blocks.append(&mut held);
        proof {
            assert(walk.owned.values@ =~= start.owned.values@ + vv);
            assert(walk.owned.regions@ =~= start.owned.regions@ + rv);
            assert(walk.ops@ =~= start.ops@.drop_last() + nv);
            assert(walk.blocks@ =~= start.blocks@ + hv);
            assert forall|x: OpId| #[trigger] seen_op(*walk, x) <==> seen_op(start, x) || x == op by {
                assert(x.0 == op.0 ==> x == op);
            }
            self.visited_op_keeps(start, *walk, op, ops, blocks, rv, vv, nv, hv);
        }
    }

    proof fn skip_op_keeps(
        &self,
        start: Walk,
        walk: Walk,
        op: OpId,
        ops: Seq<OpId>,
        blocks: Seq<BlockId>,
    )
        requires
            collected(self@.ir, start),
            only_owned(self@.ir, ops, blocks, start),
            frontier_found(self@.ir, ops, blocks, start),
            start.ops@.len() > 0,
            op == start.ops@.last(),
            walk.ops@ == start.ops@.drop_last(),
            walk.owned == start.owned,
            walk.seen_ops == start.seen_ops,
            walk.seen_blocks == start.seen_blocks,
            walk.blocks == start.blocks,
            self@.ir.op(op) is None || seen_op(start, op),
        ensures
            collected(self@.ir, walk),
            only_owned(self@.ir, ops, blocks, walk),
            frontier_found(self@.ir, ops, blocks, walk),
    {
        let ir = self@.ir;
        drop_last_contains(start.ops@);
        assert forall|x: OpId| #[trigger] seen_op(walk, x) == seen_op(start, x) by {}
        assert forall|x: BlockId| #[trigger] seen_block(walk, x) == seen_block(start, x) by {}
        assert forall|x: OpId| #[trigger] found_op(walk, x) && ir.op(x) is Some implies found_op(
            start,
            x,
        ) by {}
        assert forall|x: OpId| #[trigger] found_op(start, x) && ir.op(x) is Some implies found_op(
            walk,
            x,
        ) by {}
        assert forall|x: BlockId| #[trigger] found_block(walk, x) == found_block(start, x) by {}
        assert forall|v: ValueId| #[trigger] value_collected(ir, walk, v) == value_collected(
            ir,
            start,
            v,
        ) by {
            self.same_values(start, walk, v);
            self.same_values(walk, start, v);
        }
        assert forall|region: RegionId| #[trigger]
            walk.owned.regions@.contains(region) <==> exists|o: OpId| #[trigger]
                owns_region(ir, o, region) && seen_op(walk, o) by {
            assert(start.owned.regions@.contains(region) <==> exists|o: OpId| #[trigger]
                owns_region(ir, o, region) && seen_op(start, o));
            if exists|o: OpId| #[trigger] owns_region(ir, o, region) && seen_op(walk, o) {
                let o = choose|o: OpId| #[trigger] owns_region(ir, o, region) && seen_op(walk, o);
                assert(seen_op(start, o));
            }
            if exists|o: OpId| #[trigger] owns_region(ir, o, region) && seen_op(start, o) {
                let o = choose|o: OpId| #[trigger] owns_region(ir, o, region) && seen_op(start, o);
                assert(seen_op(walk, o));
            }
        }
        assert forall|x: OpId| #[trigger]
            walk.owned.ops@.contains(x) <==> seen_op(walk, x) by {
            assert(start.owned.ops@.contains(x) <==> seen_op(start, x));
        }
        assert forall|x: BlockId| #[trigger]
            walk.owned.blocks@.contains(x) <==> seen_block(walk, x) by {
            assert(start.owned.blocks@.contains(x) <==> seen_block(start, x));
        }
    }

    /// A value collected by one walk is collected by another that saw as much.
    proof fn same_values(&self, a: Walk, b: Walk, v: ValueId)
        requires
            forall|x: OpId| #[trigger] seen_op(a, x) ==> seen_op(b, x),
            forall|x: BlockId| #[trigger] seen_block(a, x) ==> seen_block(b, x),
        ensures
            value_collected(self@.ir, a, v) ==> value_collected(self@.ir, b, v),
    {
        let ir = self@.ir;
        if value_collected(ir, a, v) {
            if exists|op: OpId| #[trigger] seen_op(a, op) && result_of(ir, op, v) {
                let op = choose|op: OpId| #[trigger] seen_op(a, op) && result_of(ir, op, v);
                assert(seen_op(b, op));
            } else if exists|op: OpId, region: RegionId| #[trigger]
                owns_region(ir, op, region) && seen_op(a, op) && port_of(ir, region, v) {
                let (op, region) = choose|op: OpId, region: RegionId| #[trigger]
                    owns_region(ir, op, region) && seen_op(a, op) && port_of(ir, region, v);
                assert(seen_op(b, op));
                assert(owns_region(ir, op, region));
            } else {
                let block = choose|block: BlockId| #[trigger]
                    seen_block(a, block) && argument_of(ir, block, v);
                assert(seen_block(b, block));
            }
        }
    }

    proof fn visited_op_keeps(
        &self,
        start: Walk,
        walk: Walk,
        op: OpId,
        ops: Seq<OpId>,
        blocks: Seq<BlockId>,
        rv: Seq<RegionId>,
        vv: Seq<ValueId>,
        nv: Seq<OpId>,
        hv: Seq<BlockId>,
    )
        requires
            collected(self@.ir, start),
            only_owned(self@.ir, ops, blocks, start),
            frontier_found(self@.ir, ops, blocks, start),
            start.ops@.len() > 0,
            op == start.ops@.last(),
            self@.ir.op(op) is Some,
            op_owned(self@.ir, ops, blocks, op),
            forall|x: OpId| #[trigger] seen_op(walk, x) <==> seen_op(start, x) || x == op,
            walk.seen_blocks == start.seen_blocks,
            walk.seen_ops.len() == start.seen_ops.len(),
            walk.owned.ops@ == start.owned.ops@.push(op),
            walk.owned.blocks == start.owned.blocks,
            walk.owned.values@ == start.owned.values@ + vv,
            walk.owned.regions@ == start.owned.regions@ + rv,
            walk.ops@ == start.ops@.drop_last() + nv,
            walk.blocks@ == start.blocks@ + hv,
            forall|region: RegionId| #[trigger]
                rv.contains(region) <==> owns_region(self@.ir, op, region),
            forall|value: ValueId| #[trigger]
                vv.contains(value) <==> result_of(self@.ir, op, value) || exists|region: RegionId|
                #[trigger]
                owns_region(self@.ir, op, region) && port_of(self@.ir, region, value),
            forall|x: OpId| #[trigger]
                nv.contains(x) <==> exists|region: RegionId| #[trigger]
                    owns_region(self@.ir, op, region) && holds_node(self@.ir, region, x),
            forall|b: BlockId| #[trigger]
                hv.contains(b) <==> exists|region: RegionId| #[trigger]
                    owns_region(self@.ir, op, region) && holds_block(self@.ir, region, b),
        ensures
            collected(self@.ir, walk),
            only_owned(self@.ir, ops, blocks, walk),
            frontier_found(self@.ir, ops, blocks, walk),
    {
        let ir = self@.ir;
        drop_last_contains(start.ops@);
        push_contains(start.owned.ops@, op);
        add_contains(start.owned.regions@, rv);
        add_contains(start.owned.values@, vv);
        add_contains(start.ops@.drop_last(), nv);
        add_contains(start.blocks@, hv);
        assert forall|x: BlockId| #[trigger] seen_block(walk, x) == seen_block(start, x) by {}
        assert forall|x: OpId| #[trigger]
            walk.owned.ops@.contains(x) <==> seen_op(walk, x) by {
            assert(start.owned.ops@.contains(x) <==> seen_op(start, x));
        }
        assert forall|x: BlockId| #[trigger]
            walk.owned.blocks@.contains(x) <==> seen_block(walk, x) by {
            assert(start.owned.blocks@.contains(x) <==> seen_block(start, x));
        }
        assert forall|region: RegionId| #[trigger]
            walk.owned.regions@.contains(region) <==> exists|o: OpId| #[trigger]
                owns_region(ir, o, region) && seen_op(walk, o) by {
            assert(start.owned.regions@.contains(region) <==> exists|o: OpId| #[trigger]
                owns_region(ir, o, region) && seen_op(start, o));
            if rv.contains(region) {
                assert(owns_region(ir, op, region) && seen_op(walk, op));
            }
            if start.owned.regions@.contains(region) {
                let o = choose|o: OpId| #[trigger] owns_region(ir, o, region) && seen_op(start, o);
                assert(seen_op(walk, o));
            }
            if exists|o: OpId| #[trigger] owns_region(ir, o, region) && seen_op(walk, o) {
                let o = choose|o: OpId| #[trigger] owns_region(ir, o, region) && seen_op(walk, o);
                if o != op {
                    assert(seen_op(start, o));
                }
            }
        }
        assert forall|v: ValueId| #[trigger]
            walk.owned.values@.contains(v) <==> value_collected(ir, walk, v) by {
            assert(start.owned.values@.contains(v) <==> value_collected(ir, start, v));
            self.same_values(start, walk, v);
            if vv.contains(v) {
                assert(seen_op(walk, op));
                if !result_of(ir, op, v) {
                    let region = choose|region: RegionId| #[trigger]
                        owns_region(ir, op, region) && port_of(ir, region, v);
                    assert(owns_region(ir, op, region) && seen_op(walk, op) && port_of(
                        ir,
                        region,
                        v,
                    ));
                }
            }
            if value_collected(ir, walk, v) {
                if exists|o: OpId| #[trigger] seen_op(walk, o) && result_of(ir, o, v) {
                    let o = choose|o: OpId| #[trigger] seen_op(walk, o) && result_of(ir, o, v);
                    if o != op {
                        assert(seen_op(start, o));
                    }
                } else if exists|o: OpId, region: RegionId| #[trigger]
                    owns_region(ir, o, region) && seen_op(walk, o) && port_of(ir, region, v) {
                    let (o, region) = choose|o: OpId, region: RegionId| #[trigger]
                        owns_region(ir, o, region) && seen_op(walk, o) && port_of(ir, region, v);
                    if o != op {
                        assert(seen_op(start, o));
                    }
                } else {
                    let block = choose|block: BlockId| #[trigger]
                        seen_block(walk, block) && argument_of(ir, block, v);
                    assert(seen_block(start, block));
                }
            }
        }
        assert forall|x: OpId| #[trigger] found_op(walk, x) && ir.op(x) is Some implies op_owned(
            ir,
            ops,
            blocks,
            x,
        ) by {
            if nv.contains(x) && x != op {
                let region = choose|region: RegionId| #[trigger]
                    owns_region(ir, op, region) && holds_node(ir, region, x);
                step_to_node(ir, ops, blocks, op, region, x);
            } else if x != op {
                assert(found_op(start, x));
            }
        }
        assert forall|b: BlockId| #[trigger]
            found_block(walk, b) && ir.block(b) is Some implies block_owned(
            ir,
            ops,
            blocks,
            b,
        ) by {
            if hv.contains(b) {
                let region = choose|region: RegionId| #[trigger]
                    owns_region(ir, op, region) && holds_block(ir, region, b);
                step_to_block(ir, ops, blocks, op, region, b);
            } else {
                assert(found_block(start, b));
            }
        }
        assert forall|x: OpId| #[trigger] found_op(start, x) implies found_op(walk, x) by {
            if !seen_op(start, x) {
                assert(start.ops@.contains(x));
                if x == op {
                    assert(seen_op(walk, x));
                }
            } else {
                assert(seen_op(walk, x));
            }
        }
        assert forall|b: BlockId| #[trigger] found_block(start, b) implies found_block(walk, b) by {
            assert(seen_block(walk, b) == seen_block(start, b));
        }
        assert(frontier_found(ir, ops, blocks, walk)) by {
            assert forall|x: OpId| #[trigger] ops.contains(x) && ir.op(x) is Some implies found_op(
                walk,
                x,
            ) by {
                assert(found_op(start, x));
            }
            assert forall|b: BlockId| #[trigger]
                blocks.contains(b) && ir.block(b) is Some implies found_block(walk, b) by {
                assert(found_block(start, b));
            }
            assert forall|owner: OpId, region: RegionId, x: OpId|
                #![trigger owns_region(ir, owner, region), holds_node(ir, region, x)]
                seen_op(walk, owner) && owns_region(ir, owner, region) && holds_node(
                    ir,
                    region,
                    x,
                ) implies found_op(walk, x) by {
                if owner == op {
                    assert(nv.contains(x));
                } else {
                    assert(seen_op(start, owner));
                    assert(found_op(start, x));
                }
            }
            assert forall|owner: OpId, region: RegionId, b: BlockId|
                #![trigger owns_region(ir, owner, region), holds_block(ir, region, b)]
                seen_op(walk, owner) && owns_region(ir, owner, region) && holds_block(
                    ir,
                    region,
                    b,
                ) implies found_block(walk, b) by {
                if owner == op {
                    assert(hv.contains(b));
                } else {
                    assert(seen_op(start, owner));
                    assert(found_block(start, b));
                }
            }
            assert forall|b: BlockId, x: OpId| #[trigger]
                holds_op(ir, b, x) && seen_block(walk, b) implies found_op(walk, x) by {
                assert(seen_block(start, b));
                assert(found_op(start, x));
            }
        }
    }
}

impl Context {
    /// Visits the block taken from the list last, where it is live and was not
    /// visited before.
    fn visit_block(
        &self,
        walk: &mut Walk,
        block: BlockId,
        Ghost(ops): Ghost<Seq<OpId>>,
        Ghost(blocks): Ghost<Seq<BlockId>>,
        Ghost(start): Ghost<Walk>,
    )
        requires
            self.inv(),
            collected(self@.ir, start),
            only_owned(self@.ir, ops, blocks, start),
            frontier_found(self@.ir, ops, blocks, start),
            start.blocks@.len() > 0,
            block == start.blocks@.last(),
            old(walk).blocks@ == start.blocks@.drop_last(),
            old(walk).owned == start.owned,
            old(walk).seen_ops == start.seen_ops,
            old(walk).seen_blocks == start.seen_blocks,
            old(walk).ops@ == start.ops@,
        ensures
            collected(self@.ir, *final(walk)),
            only_owned(self@.ir, ops, blocks, *final(walk)),
            frontier_found(self@.ir, ops, blocks, *final(walk)),
            unseen(final(walk).seen_ops@) == unseen(start.seen_ops@),
            unseen(final(walk).seen_blocks@) < unseen(start.seen_blocks@) || (unseen(
                final(walk).seen_blocks@,
            ) == unseen(start.seen_blocks@) && final(walk).blocks@.len() < start.blocks@.len()
                && final(walk).ops@.len() == start.ops@.len()),
    {
        let ghost ir = self@.ir;
        let skip = !self.has_block(block) || walk.seen_blocks[block.0 as usize];
        let mut values: Vec<ValueId> = Vec::new();
        let mut held: Vec<OpId> = Vec::new();
        if !skip {
            values = self.argument_ids(block);
            held = self.held_ops(block);
        }
        let ghost vv = values@;
        let ghost nv = held@;
        if !skip {
            proof {
                seeing_one(start.seen_blocks@, block.0 as int);
            }
            walk.seen_blocks.set(block.0 as usize, true);
            walk.owned.blocks.push(block);
        }
        walk.owned.values.append(&mut values);
        walk.ops.append(&mut held);
        proof {
            drop_last_contains(start.blocks@);
            push_contains(start.owned.blocks@, block);
            add_contains(start.owned.values@, vv);
            add_contains(start.ops@, nv);
            assert(walk.owned.values@ =~= start.owned.values@ + vv);
            assert(walk.ops@ =~= start.ops@ + nv);
            if skip {
                assert(walk.owned.values@ =~= start.owned.values@);
                assert(walk.ops@ =~= start.ops@);
            } else {
                assert(found_block(start, block));
                assert(block_owned(ir, ops, blocks, block));
            }
            let live = !skip;
            assert forall|x: OpId| #[trigger] seen_op(*walk, x) == seen_op(start, x) by {}
            assert forall|x: BlockId| #[trigger]
                seen_block(*walk, x) <==> seen_block(start, x) || (live && x == block) by {
                assert(x.0 == block.0 ==> x == block);
            }
            assert forall|x: OpId| #[trigger]
                walk.owned.ops@.contains(x) <==> seen_op(*walk, x) by {
                assert(start.owned.ops@.contains(x) <==> seen_op(start, x));
            }
            assert forall|x: BlockId| #[trigger]
                walk.owned.blocks@.contains(x) <==> seen_block(*walk, x) by {
                assert(start.owned.blocks@.contains(x) <==> seen_block(start, x));
            }
            assert forall|region: RegionId| #[trigger]
                walk.owned.regions@.contains(region) <==> exists|o: OpId| #[trigger]
                    owns_region(ir, o, region) && seen_op(*walk, o) by {
                assert(start.owned.regions@.contains(region) <==> exists|o: OpId| #[trigger]
                    owns_region(ir, o, region) && seen_op(start, o));
                if exists|o: OpId| #[trigger] owns_region(ir, o, region) && seen_op(*walk, o) {
                    let o = choose|o: OpId| #[trigger]
                        owns_region(ir, o, region) && seen_op(*walk, o);
                    assert(seen_op(start, o));
                }
                if exists|o: OpId| #[trigger] owns_region(ir, o, region) && seen_op(start, o) {
                    let o = choose|o: OpId| #[trigger]
                        owns_region(ir, o, region) && seen_op(start, o);
                    assert(seen_op(*walk, o));
                }
            }
            assert forall|v: ValueId| #[trigger]
                walk.owned.values@.contains(v) <==> value_collected(ir, *walk, v) by {
                assert(start.owned.values@.contains(v) <==> value_collected(ir, start, v));
                self.same_values(start, *walk, v);
                if vv.contains(v) && live {
                    assert(seen_block(*walk, block) && argument_of(ir, block, v));
                }
                if value_collected(ir, *walk, v) {
                    if exists|o: OpId| #[trigger] seen_op(*walk, o) && result_of(ir, o, v) {
                        let o = choose|o: OpId| #[trigger] seen_op(*walk, o) && result_of(ir, o, v);
                        assert(seen_op(start, o));
                    } else if exists|o: OpId, region: RegionId| #[trigger]
                        owns_region(ir, o, region) && seen_op(*walk, o) && port_of(ir, region, v) {
                        let (o, region) = choose|o: OpId, region: RegionId| #[trigger]
                            owns_region(ir, o, region) && seen_op(*walk, o) && port_of(
                                ir,
                                region,
                                v,
                            );
                        assert(seen_op(start, o));
                    } else {
                        let b = choose|b: BlockId| #[trigger]
                            seen_block(*walk, b) && argument_of(ir, b, v);
                        if !(live && b == block) {
                            assert(seen_block(start, b));
                        } else {
                            assert(vv.contains(v));
                        }
                    }
                }
            }
            assert forall|x: OpId| #[trigger] found_op(start, x) implies found_op(*walk, x) by {
                assert(seen_op(*walk, x) == seen_op(start, x));
            }
            assert forall|b: BlockId| #[trigger]
                found_block(start, b) && ir.block(b) is Some implies found_block(*walk, b) by {
                if !seen_block(start, b) {
                    assert(start.blocks@.contains(b));
                    if b == block {
                        assert(seen_block(*walk, b));
                    }
                } else {
                    assert(seen_block(*walk, b));
                }
            }
            assert forall|x: OpId| #[trigger]
                found_op(*walk, x) && ir.op(x) is Some implies op_owned(ir, ops, blocks, x) by {
                if live && nv.contains(x) {
                    step_to_op(ir, ops, blocks, block, x);
                } else {
                    assert(found_op(start, x));
                }
            }
            assert forall|b: BlockId| #[trigger]
                found_block(*walk, b) && ir.block(b) is Some implies block_owned(
                ir,
                ops,
                blocks,
                b,
            ) by {
                assert(found_block(start, b));
            }
            assert(frontier_found(ir, ops, blocks, *walk)) by {
                assert forall|x: OpId| #[trigger]
                    ops.contains(x) && ir.op(x) is Some implies found_op(*walk, x) by {
                    assert(found_op(start, x));
                }
                assert forall|b: BlockId| #[trigger]
                    blocks.contains(b) && ir.block(b) is Some implies found_block(*walk, b) by {
                    assert(found_block(start, b));
                }
                assert forall|owner: OpId, region: RegionId, x: OpId|
                    #![trigger owns_region(ir, owner, region), holds_node(ir, region, x)]
                    seen_op(*walk, owner) && owns_region(ir, owner, region) && holds_node(
                        ir,
                        region,
                        x,
                    ) implies found_op(*walk, x) by {
                    assert(seen_op(start, owner));
                    assert(found_op(start, x));
                }
                assert forall|owner: OpId, region: RegionId, b: BlockId|
                    #![trigger owns_region(ir, owner, region), holds_block(ir, region, b)]
                    seen_op(*walk, owner) && owns_region(ir, owner, region) && holds_block(
                        ir,
                        region,
                        b,
                    ) implies found_block(*walk, b) by {
                    assert(seen_op(start, owner));
                    assert(found_block(start, b));
                }
                assert forall|b: BlockId, x: OpId| #[trigger]
                    holds_op(ir, b, x) && seen_block(*walk, b) implies found_op(*walk, x) by {
                    if live && b == block {
                        assert(nv.contains(x));
                    } else {
                        assert(seen_block(start, b));
                        assert(found_op(start, x));
                    }
                }
            }
        }
    }

    /// Everything `ops` and `blocks` own: the ops themselves, their result
    /// values, their regions, and those regions' blocks, arguments, ports and
    /// nested ops.
    ///
    /// A nested entity is collected only while its parent link still points at
    /// the entity being erased: a rewrite that lifts a block out of a region it
    /// is destroying leaves the block listed in the dying region, and that
    /// stale listing must not free live IR.
    pub fn collect_owned(&self, ops: Vec<OpId>, blocks: Vec<BlockId>) -> (owned: Owned)
        requires
            self.inv(),
        ensures
            forall|op: OpId| #[trigger]
                owned.ops@.contains(op) <==> op_owned(self@.ir, ops@, blocks@, op),
            forall|block: BlockId| #[trigger]
                owned.blocks@.contains(block) <==> block_owned(self@.ir, ops@, blocks@, block),
            forall|region: RegionId| #[trigger]
                owned.regions@.contains(region) <==> region_owned(self@.ir, ops@, blocks@, region),
            forall|value: ValueId| #[trigger]
                owned.values@.contains(value) <==> value_owned(self@.ir, ops@, blocks@, value),
    {
        let ghost ir = self@.ir;
        let ghost root_ops = ops@;
        let ghost root_blocks = blocks@;
        let seen_ops: Vec<bool> = vec![false; self.ir.op_count()];
        let seen_blocks: Vec<bool> = vec![false; self.ir.block_count()];
        let mut walk = Walk {
            owned: Owned {
                ops: Vec::new(),
                values: Vec::new(),
                blocks: Vec::new(),
                regions: Vec::new(),
            },
            seen_ops,
            seen_blocks,
            ops,
            blocks,
        };
        proof {
            assert forall|x: OpId| !#[trigger] seen_op(walk, x) by {}
            assert forall|x: BlockId| !#[trigger] seen_block(walk, x) by {}
            assert forall|x: OpId| !#[trigger] walk.owned.ops@.contains(x) by {}
            assert forall|x: BlockId| !#[trigger] walk.owned.blocks@.contains(x) by {}
            assert(collected(ir, walk));
            assert forall|x: OpId| #[trigger]
                found_op(walk, x) && ir.op(x) is Some implies op_owned(
                ir,
                root_ops,
                root_blocks,
                x,
            ) by {
                assert(op_within(ir, root_ops, root_blocks, x, 0));
            }
            assert forall|b: BlockId| #[trigger]
                found_block(walk, b) && ir.block(b) is Some implies block_owned(
                ir,
                root_ops,
                root_blocks,
                b,
            ) by {
                assert(block_within(ir, root_ops, root_blocks, b, 0));
            }
        }
        while walk.ops.len() > 0 || walk.blocks.len() > 0
            invariant
                self.inv(),
                ir == self@.ir,
                collected(ir, walk),
                only_owned(ir, root_ops, root_blocks, walk),
                frontier_found(ir, root_ops, root_blocks, walk),
            decreases
                    unseen(walk.seen_ops@) + unseen(walk.seen_blocks@),
                    walk.ops@.len() + walk.blocks@.len(),
        {
            let ghost start = walk;
            match walk.ops.pop() {
                Some(op) => {
                    assert(walk.ops@ =~= start.ops@.drop_last());
                    self.visit_op(
                        &mut walk,
                        op,
                        Ghost(root_ops),
                        Ghost(root_blocks),
                        Ghost(start),
                    );
                },
                None => {
                    let block = walk.blocks.pop().unwrap();
                    assert(walk.blocks@ =~= start.blocks@.drop_last());
                    self.visit_block(
                        &mut walk,
                        block,
                        Ghost(root_ops),
                        Ghost(root_blocks),
                        Ghost(start),
                    );
                },
            }
        }
        proof {
            assert forall|op: OpId| #[trigger] seen_op(walk, op) <==> op_owned(
                ir,
                root_ops,
                root_blocks,
                op,
            ) by {
                if seen_op(walk, op) {
                    assert(found_op(walk, op));
                }
                if op_owned(ir, root_ops, root_blocks, op) {
                    let depth = choose|depth: nat| op_within(ir, root_ops, root_blocks, op, depth);
                    walk_is_complete(ir, root_ops, root_blocks, walk, depth);
                }
            }
            assert forall|b: BlockId| #[trigger] seen_block(walk, b) <==> block_owned(
                ir,
                root_ops,
                root_blocks,
                b,
            ) by {
                if seen_block(walk, b) {
                    assert(found_block(walk, b));
                }
                if block_owned(ir, root_ops, root_blocks, b) {
                    let depth = choose|depth: nat|
                        block_within(ir, root_ops, root_blocks, b, depth);
                    walk_is_complete(ir, root_ops, root_blocks, walk, depth);
                }
            }
            assert forall|op: OpId| #[trigger]
                walk.owned.ops@.contains(op) <==> op_owned(ir, root_ops, root_blocks, op) by {
                assert(walk.owned.ops@.contains(op) <==> seen_op(walk, op));
            }
            assert forall|b: BlockId| #[trigger]
                walk.owned.blocks@.contains(b) <==> block_owned(ir, root_ops, root_blocks, b) by {
                assert(walk.owned.blocks@.contains(b) <==> seen_block(walk, b));
            }
            assert forall|region: RegionId| #[trigger]
                walk.owned.regions@.contains(region) <==> region_owned(
                    ir,
                    root_ops,
                    root_blocks,
                    region,
                ) by {
                if walk.owned.regions@.contains(region) {
                    let o = choose|o: OpId| #[trigger]
                        owns_region(ir, o, region) && seen_op(walk, o);
                    assert(op_owned(ir, root_ops, root_blocks, o));
                }
                if region_owned(ir, root_ops, root_blocks, region) {
                    let o = choose|o: OpId| #[trigger]
                        owns_region(ir, o, region) && op_owned(ir, root_ops, root_blocks, o);
                    assert(seen_op(walk, o));
                }
            }
            assert forall|v: ValueId| #[trigger]
                walk.owned.values@.contains(v) <==> value_owned(ir, root_ops, root_blocks, v) by {
                if value_collected(ir, walk, v) {
                    if exists|o: OpId| #[trigger] seen_op(walk, o) && result_of(ir, o, v) {
                        let o = choose|o: OpId| #[trigger] seen_op(walk, o) && result_of(ir, o, v);
                        assert(op_owned(ir, root_ops, root_blocks, o));
                    } else if exists|o: OpId, region: RegionId| #[trigger]
                        owns_region(ir, o, region) && seen_op(walk, o) && port_of(ir, region, v) {
                        let (o, region) = choose|o: OpId, region: RegionId| #[trigger]
                            owns_region(ir, o, region) && seen_op(walk, o) && port_of(
                                ir,
                                region,
                                v,
                            );
                        assert(op_owned(ir, root_ops, root_blocks, o));
                        assert(region_owned(ir, root_ops, root_blocks, region));
                    } else {
                        let b = choose|b: BlockId| #[trigger]
                            seen_block(walk, b) && argument_of(ir, b, v);
                        assert(block_owned(ir, root_ops, root_blocks, b));
                    }
                }
                if value_owned(ir, root_ops, root_blocks, v) {
                    if exists|o: OpId| #[trigger]
                        op_owned(ir, root_ops, root_blocks, o) && result_of(ir, o, v) {
                        let o = choose|o: OpId| #[trigger]
                            op_owned(ir, root_ops, root_blocks, o) && result_of(ir, o, v);
                        assert(seen_op(walk, o));
                    } else if exists|region: RegionId| #[trigger]
                        region_owned(ir, root_ops, root_blocks, region) && port_of(
                            ir,
                            region,
                            v,
                        ) {
                        let region = choose|region: RegionId| #[trigger]
                            region_owned(ir, root_ops, root_blocks, region) && port_of(
                                ir,
                                region,
                                v,
                            );
                        let o = choose|o: OpId| #[trigger]
                            owns_region(ir, o, region) && op_owned(ir, root_ops, root_blocks, o);
                        assert(seen_op(walk, o));
                        assert(owns_region(ir, o, region) && seen_op(walk, o) && port_of(
                            ir,
                            region,
                            v,
                        ));
                    } else {
                        let b = choose|b: BlockId| #[trigger]
                            block_owned(ir, root_ops, root_blocks, b) && argument_of(ir, b, v);
                        assert(seen_block(walk, b));
                    }
                }
            }
        }
        walk.owned
    }
}

/// `after` is `before` with exactly the entities that satisfy the four
/// predicates gone.
pub open spec fn erased_exactly(
    before: IrView,
    after: IrView,
    op_gone: spec_fn(OpId) -> bool,
    value_gone: spec_fn(ValueId) -> bool,
    block_gone: spec_fn(BlockId) -> bool,
    region_gone: spec_fn(RegionId) -> bool,
) -> bool {
    &&& forall|op: OpId| #[trigger]
        after.op(op) == if op_gone(op) {
            None
        } else {
            before.op(op)
        }
    &&& forall|value: ValueId| #[trigger]
        after.value(value) == if value_gone(value) {
            None
        } else {
            before.value(value)
        }
    &&& forall|block: BlockId| #[trigger]
        after.block(block) == if block_gone(block) {
            None
        } else {
            before.block(block)
        }
    &&& forall|region: RegionId| #[trigger]
        after.region(region) == if region_gone(region) {
            None
        } else {
            before.region(region)
        }
    &&& after.ops.now.len() == before.ops.now.len()
    &&& after.values.now.len() == before.values.now.len()
    &&& after.blocks.now.len() == before.blocks.now.len()
    &&& after.regions.now.len() == before.regions.now.len()
    &&& after.discard() == before.discard()
}

/// `after` is `before` with exactly what `ops` and `blocks` own gone.
pub open spec fn reclaimed(
    before: IrView,
    after: IrView,
    ops: Seq<OpId>,
    blocks: Seq<BlockId>,
) -> bool {
    erased_exactly(
        before,
        after,
        |op: OpId| op_owned(before, ops, blocks, op),
        |value: ValueId| value_owned(before, ops, blocks, value),
        |block: BlockId| block_owned(before, ops, blocks, block),
        |region: RegionId| region_owned(before, ops, blocks, region),
    )
}

impl Context {
    /// Takes entities that have left the IR out of the visible graph.
    pub fn free(&mut self, owned: Owned)
        requires
            old(self).inv(),
        ensures
            final(self).inv(),
            final(self)@ == old(self)@.with_ir(final(self)@.ir),
            erased_exactly(
                old(self)@.ir,
                final(self)@.ir,
                |op: OpId| owned.ops@.contains(op),
                |value: ValueId| owned.values@.contains(value),
                |block: BlockId| owned.blocks@.contains(block),
                |region: RegionId| owned.regions@.contains(region),
            ),
    {
        let ghost before = self@;
        let mut i: usize = 0;
        while i < owned.ops.len()
            invariant
                i <= owned.ops.len(),
                self.inv(),
                self@ == before.with_ir(self@.ir),
                self@.ir.discard() == before.ir.discard(),
                self@.ir.values == before.ir.values,
                self@.ir.blocks == before.ir.blocks,
                self@.ir.regions == before.ir.regions,
                self@.ir.ops.now.len() == before.ir.ops.now.len(),
                forall|op: OpId| #[trigger]
                    self@.ir.op(op) == if owned.ops@.take(i as int).contains(op) {
                        None
                    } else {
                        before.ir.op(op)
                    },
            decreases owned.ops.len() - i,
        {
            let ghost here = self@.ir;
            proof {
                take_contains(owned.ops@, i as int);
                self.ir.inv_wf();
            }
            self.ir.erase_op(owned.ops[i]);
            proof {
                let gone = owned.ops@[i as int];
                assert forall|op: OpId| #[trigger]
                    self@.ir.op(op) == if owned.ops@.take(i + 1).contains(op) {
                        None
                    } else {
                        before.ir.op(op)
                    } by {
                    assert(here.op(op) == if owned.ops@.take(i as int).contains(op) {
                        None
                    } else {
                        before.ir.op(op)
                    });
                    assert(op.0 == gone.0 ==> op == gone);
                }
                erase_keeps_base(here, gone);
            }
            i += 1;
        }
        assert(owned.ops@.take(i as int) =~= owned.ops@);
        let ghost mid = self@.ir;
        let mut i: usize = 0;
        while i < owned.values.len()
            invariant
                i <= owned.values.len(),
                self.inv(),
                self@ == before.with_ir(self@.ir),
                self@.ir.discard() == before.ir.discard(),
                self@.ir.ops == mid.ops,
                self@.ir.uses == mid.uses,
                self@.ir.blocks == before.ir.blocks,
                self@.ir.regions == before.ir.regions,
                self@.ir.values.now.len() == before.ir.values.now.len(),
                forall|value: ValueId| #[trigger]
                    self@.ir.value(value) == if owned.values@.take(i as int).contains(value) {
                        None
                    } else {
                        before.ir.value(value)
                    },
            decreases owned.values.len() - i,
        {
            let ghost here = self@.ir;
            proof {
                take_contains(owned.values@, i as int);
            }
            self.ir.erase_value(owned.values[i]);
            proof {
                let gone = owned.values@[i as int];
                assert forall|value: ValueId| #[trigger]
                    self@.ir.value(value) == if owned.values@.take(i + 1).contains(value) {
                        None
                    } else {
                        before.ir.value(value)
                    } by {
                    assert(here.value(value) == if owned.values@.take(i as int).contains(value) {
                        None
                    } else {
                        before.ir.value(value)
                    });
                    assert(value.0 == gone.0 ==> value == gone);
                }
                assert(self@.ir.discard() == here.discard());
            }
            i += 1;
        }
        assert(owned.values@.take(i as int) =~= owned.values@);
        let ghost vals = self@.ir;
        let mut i: usize = 0;
        while i < owned.blocks.len()
            invariant
                i <= owned.blocks.len(),
                self.inv(),
                self@ == before.with_ir(self@.ir),
                self@.ir.discard() == before.ir.discard(),
                self@.ir.ops == mid.ops,
                self@.ir.uses == mid.uses,
                self@.ir.values == vals.values,
                self@.ir.regions == before.ir.regions,
                self@.ir.blocks.now.len() == before.ir.blocks.now.len(),
                forall|block: BlockId| #[trigger]
                    self@.ir.block(block) == if owned.blocks@.take(i as int).contains(block) {
                        None
                    } else {
                        before.ir.block(block)
                    },
            decreases owned.blocks.len() - i,
        {
            let ghost here = self@.ir;
            proof {
                take_contains(owned.blocks@, i as int);
            }
            self.ir.erase_block(owned.blocks[i]);
            proof {
                let gone = owned.blocks@[i as int];
                assert forall|block: BlockId| #[trigger]
                    self@.ir.block(block) == if owned.blocks@.take(i + 1).contains(block) {
                        None
                    } else {
                        before.ir.block(block)
                    } by {
                    assert(here.block(block) == if owned.blocks@.take(i as int).contains(block) {
                        None
                    } else {
                        before.ir.block(block)
                    });
                    assert(block.0 == gone.0 ==> block == gone);
                }
                assert(self@.ir.discard() == here.discard());
            }
            i += 1;
        }
        assert(owned.blocks@.take(i as int) =~= owned.blocks@);
        let ghost blks = self@.ir;
        let mut i: usize = 0;
        while i < owned.regions.len()
            invariant
                i <= owned.regions.len(),
                self.inv(),
                self@ == before.with_ir(self@.ir),
                self@.ir.discard() == before.ir.discard(),
                self@.ir.ops == mid.ops,
                self@.ir.uses == mid.uses,
                self@.ir.values == vals.values,
                self@.ir.blocks == blks.blocks,
                self@.ir.regions.now.len() == before.ir.regions.now.len(),
                forall|region: RegionId| #[trigger]
                    self@.ir.region(region) == if owned.regions@.take(i as int).contains(region) {
                        None
                    } else {
                        before.ir.region(region)
                    },
            decreases owned.regions.len() - i,
        {
            let ghost here = self@.ir;
            proof {
                take_contains(owned.regions@, i as int);
            }
            self.ir.erase_region(owned.regions[i]);
            proof {
                let gone = owned.regions@[i as int];
                assert forall|region: RegionId| #[trigger]
                    self@.ir.region(region) == if owned.regions@.take(i + 1).contains(region) {
                        None
                    } else {
                        before.ir.region(region)
                    } by {
                    assert(here.region(region) == if owned.regions@.take(i as int).contains(
                        region,
                    ) {
                        None
                    } else {
                        before.ir.region(region)
                    });
                    assert(region.0 == gone.0 ==> region == gone);
                }
                assert(self@.ir.discard() == here.discard());
            }
            i += 1;
        }
        assert(owned.regions@.take(i as int) =~= owned.regions@);
        proof {
            let ir = self@.ir;
            assert forall|op: OpId| #[trigger]
                ir.op(op) == if owned.ops@.contains(op) {
                    None
                } else {
                    before.ir.op(op)
                } by {
                assert(mid.op(op) == ir.op(op));
            }
            assert forall|value: ValueId| #[trigger]
                ir.value(value) == if owned.values@.contains(value) {
                    None
                } else {
                    before.ir.value(value)
                } by {
                assert(vals.value(value) == ir.value(value));
            }
            assert forall|block: BlockId| #[trigger]
                ir.block(block) == if owned.blocks@.contains(block) {
                    None
                } else {
                    before.ir.block(block)
                } by {
                assert(blks.block(block) == ir.block(block));
            }
        }
    }

    /// Takes `ops` and `blocks` and everything they own out of the IR. Bumps no
    /// version: the caller reports the edit.
    pub(crate) fn reclaim(&mut self, ops: Vec<OpId>, blocks: Vec<BlockId>)
        requires
            old(self).inv(),
        ensures
            final(self).inv(),
            final(self)@ == old(self)@.with_ir(final(self)@.ir),
            reclaimed(old(self)@.ir, final(self)@.ir, ops@, blocks@),
    {
        let owned = self.collect_owned(ops, blocks);
        self.free(owned);
    }

    /// Takes `id` and everything it owns out of the IR.
    pub fn remove_operation(&mut self, id: OpId)
        requires
            old(self).inv(),
        ensures
            final(self).inv(),
            final(self)@ == old(self)@.with_ir(final(self)@.ir),
            reclaimed(old(self)@.ir, final(self)@.ir, seq![id], Seq::empty()),
    {
        let mut ops: Vec<OpId> = Vec::new();
        ops.push(id);
        assert(ops@ =~= seq![id]);
        let none: Vec<BlockId> = Vec::new();
        assert(none@ =~= Seq::<BlockId>::empty());
        self.reclaim(ops, none);
    }

    /// [`Context::remove_operation`] for a replacement that adopted some of the
    /// erased op's result values: a post-allocation re-encoding keeps the values
    /// the register assignment already placed, so they outlive the op that used
    /// to define them.
    pub fn remove_operation_except(&mut self, id: OpId, keep: &Vec<ValueId>)
        requires
            old(self).inv(),
        ensures
            final(self).inv(),
            final(self)@ == old(self)@.with_ir(final(self)@.ir),
            erased_exactly(
                old(self)@.ir,
                final(self)@.ir,
                |op: OpId| op_owned(old(self)@.ir, seq![id], Seq::empty(), op),
                |value: ValueId|
                    value_owned(old(self)@.ir, seq![id], Seq::empty(), value) && !keep@.contains(
                        value,
                    ),
                |block: BlockId| block_owned(old(self)@.ir, seq![id], Seq::empty(), block),
                |region: RegionId| region_owned(old(self)@.ir, seq![id], Seq::empty(), region),
            ),
    {
        let mut ops: Vec<OpId> = Vec::new();
        ops.push(id);
        assert(ops@ =~= seq![id]);
        let none: Vec<BlockId> = Vec::new();
        assert(none@ =~= Seq::<BlockId>::empty());
        let owned = self.collect_owned(ops, none);
        let mut values: Vec<ValueId> = Vec::new();
        let mut i: usize = 0;
        while i < owned.values.len()
            invariant
                i <= owned.values.len(),
                forall|v: ValueId| #[trigger]
                    values@.contains(v) <==> owned.values@.take(i as int).contains(v)
                        && !keep@.contains(v),
            decreases owned.values.len() - i,
        {
            let value = owned.values[i];
            let ghost before = values@;
            proof {
                take_contains(owned.values@, i as int);
                push_contains(before, value);
            }
            let mut kept = false;
            let mut j: usize = 0;
            while j < keep.len() && !kept
                invariant
                    j <= keep.len(),
                    kept ==> keep@.contains(value),
                    !kept ==> forall|k: int| 0 <= k < j ==> keep@[k] != value,
                decreases keep.len() - j,
            {
                if keep[j] == value {
                    assert(keep@[j as int] == value);
                    kept = true;
                }
                j += 1;
            }
            if !kept {
                values.push(value);
            }
            i += 1;
        }
        assert(owned.values@.take(i as int) =~= owned.values@);
        let left = Owned { ops: owned.ops, values, blocks: owned.blocks, regions: owned.regions };
        self.free(left);
    }
}

proof fn erase_keeps_base(ir: IrView, op: OpId)
    requires
        ir.wf(),
    ensures
        ir.erase_op(op).discard() == ir.discard(),
{
    if let Some(held) = ir.ops.at(op.0) {
        forgetting_keeps_base(ir.uses, op, held.operands, held.operands.len());
    }
}

proof fn forgetting_keeps_base(
    uses: LayerView<Seq<Use>>,
    op: OpId,
    operands: Seq<ValueId>,
    n: nat,
)
    ensures
        slots_forgotten(uses, op, operands, n).discarded() == uses.discarded(),
    decreases n,
{
    if n > 0 {
        forgetting_keeps_base(uses, op, operands, (n - 1) as nat);
    }
}

} // verus!

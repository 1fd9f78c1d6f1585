//! When a context can be read anywhere: what its entities name exists.
use vstd::prelude::*;
use crate::context::Context;
use crate::context::ContextView;
use crate::ids::BlockId;
use crate::ids::OpId;
use crate::ids::RegionId;
use crate::ids::ValueId;
use crate::ir::BodyView;
use crate::ir::RegionBody;
use crate::lists::MAX_IDS;

verus! {

impl ContextView {
    /// Whether `id`, if it is live, has a registered name and live regions, and
    /// its dependency counts fit its lists.
    pub open spec fn op_sound(self, id: OpId) -> bool {
        match self.ir.op(id) {
            Some(op) => {
                &&& op.name.0 < self.names.len()
                &&& op.dep_operands <= op.operands.len() <= MAX_IDS
                &&& op.dep_results <= op.results.len() <= MAX_IDS
                &&& op.regions.len() <= MAX_IDS
                &&& forall|i: int|
                    0 <= i < op.regions.len() ==> self.ir.region(#[trigger] op.regions[i]) is Some
            },
            None => true,
        }
    }

    /// Whether `id`, if it is live, has an interned type.
    pub open spec fn value_sound(self, id: ValueId) -> bool {
        match self.ir.value(id) {
            Some(entry) => entry.value.ty.0 < self.types.len(),
            None => true,
        }
    }

    /// Whether every live value has an interned type.
    pub open spec fn values_sound(self) -> bool {
        forall|id: ValueId| #[trigger] self.value_sound(id)
    }

    /// Whether every one of `ops` is live.
    pub open spec fn all_live(self, ops: Seq<OpId>) -> bool {
        forall|i: int| 0 <= i < ops.len() ==> self.ir.op(#[trigger] ops[i]) is Some
    }

    /// Whether every one of `blocks` is live.
    pub open spec fn blocks_live(self, blocks: Seq<BlockId>) -> bool {
        forall|i: int| 0 <= i < blocks.len() ==> self.ir.block(#[trigger] blocks[i]) is Some
    }

    /// Whether `id`, if it is live, holds only live operations.
    pub open spec fn block_sound(self, id: BlockId) -> bool {
        match self.ir.block(id) {
            Some(block) => self.all_live(block.operations),
            None => true,
        }
    }

    /// Whether `id`, if it is live, holds only live blocks or operations.
    pub open spec fn region_sound(self, id: RegionId) -> bool {
        match self.ir.region(id) {
            Some(region) => match region.body {
                BodyView::Blocks(blocks) => self.blocks_live(blocks),
                BodyView::Nodes(_, ops, _) => self.all_live(ops),
            },
            None => true,
        }
    }

    /// Whether every entity names only what exists.
    pub open spec fn sound(self) -> bool {
        &&& forall|id: OpId| #[trigger] self.op_sound(id)
        &&& forall|id: ValueId| #[trigger] self.value_sound(id)
        &&& forall|id: BlockId| #[trigger] self.block_sound(id)
        &&& forall|id: RegionId| #[trigger] self.region_sound(id)
    }
}

/// The operations a live region of a sound context holds are live.
pub proof fn region_ops_are_live(context: ContextView, region: RegionId)
    requires
        context.sound(),
    ensures
        context.all_live(context.region_ops(region)),
{
    assert(context.region_sound(region));
    match context.ir.region(region) {
        Some(r) => match r.body {
            BodyView::Blocks(blocks) => {
                block_ops_are_live(context, blocks);
            },
            BodyView::Nodes(_, _, _) => {},
        },
        None => {},
    }
}

proof fn block_ops_are_live(context: ContextView, blocks: Seq<BlockId>)
    requires
        context.sound(),
    ensures
        context.all_live(context.block_ops(blocks)),
    decreases blocks.len(),
{
    if blocks.len() > 0 {
        block_ops_are_live(context, blocks.drop_last());
        assert(context.block_sound(blocks.last()));
    }
}

impl Context {
    fn ops_live(&self, ops: &Vec<OpId>) -> (r: bool)
        requires
            self.inv(),
        ensures
            r == self@.all_live(ops@),
    {
        let mut i: usize = 0;
        while i < ops.len()
            invariant
                self.inv(),
                i <= ops.len(),
                forall|j: int| 0 <= j < i ==> self@.ir.op(#[trigger] ops@[j]) is Some,
            decreases ops.len() - i,
        {
            if !self.has_operation(ops[i]) {
                assert(self@.ir.op(ops@[i as int]) is None);
                return false;
            }
            i += 1;
        }
        true
    }

    fn op_is_sound(&self, id: OpId) -> (r: bool)
        requires
            self.inv(),
        ensures
            r == self@.op_sound(id),
    {
        match self.ir.get_op(id) {
            None => true,
            Some(op) => {
                if op.name.0 as usize >= self.names.len() || op.dep_operands as usize
                    > op.operands.len() || op.dep_results as usize > op.results.len()
                    || op.operands.len() > MAX_IDS || op.results.len() > MAX_IDS
                    || op.regions.len() > MAX_IDS {
                    return false;
                }
                let mut i: usize = 0;
                while i < op.regions.len()
                    invariant
                        self.inv(),
                        i <= op.regions.len(),
                        self@.ir.op(id) == Some(op@),
                        forall|j: int|
                            0 <= j < i ==> self@.ir.region(#[trigger] op.regions@[j]) is Some,
                    decreases op.regions.len() - i,
                {
                    if !self.has_region(op.regions[i]) {
                        assert(self@.ir.region(op.regions@[i as int]) is None);
                        return false;
                    }
                    i += 1;
                }
                true
            },
        }
    }

    fn region_is_sound(&self, id: RegionId) -> (r: bool)
        requires
            self.inv(),
        ensures
            r == self@.region_sound(id),
    {
        match self.ir.get_region(id) {
            None => true,
            Some(region) => match &region.body {
                RegionBody::Nodes { ports: _, ops, results: _ } => self.ops_live(ops),
                RegionBody::Blocks(blocks) => {
                    let mut i: usize = 0;
                    while i < blocks.len()
                        invariant
                            self.inv(),
                            i <= blocks.len(),
                            self@.ir.region(id) == Some(region@),
                            region.body == RegionBody::Blocks(*blocks),
                            forall|j: int|
                                0 <= j < i ==> self@.ir.block(#[trigger] blocks@[j]) is Some,
                        decreases blocks.len() - i,
                    {
                        if !self.has_block(blocks[i]) {
                            assert(self@.ir.block(blocks@[i as int]) is None);
                            assert(!self@.blocks_live(blocks@));
                            return false;
                        }
                        i += 1;
                    }
                    true
                },
            },
        }
    }

    /// Whether every entity names only what exists, so that the IR can be
    /// walked from anywhere.
    pub fn is_sound(&self) -> (r: bool)
        requires
            self.inv(),
        ensures
            r == self@.sound(),
    {
        proof {
            self.inv_wf();
        }
        let n: usize = self.op_count();
        let mut i: usize = 0;
        while i < n
            invariant
                self.inv(),
                i <= n,
                n == self@.ir.ops.now.len(),
                n <= u32::MAX,
                forall|id: OpId| id.0 < i ==> #[trigger] self@.op_sound(id),
            decreases n - i,
        {
            if !self.op_is_sound(OpId(i as u32)) {
                return false;
            }
            i += 1;
        }
        let n: usize = self.value_count();
        let mut i: usize = 0;
        while i < n
            invariant
                self.inv(),
                i <= n,
                n == self@.ir.values.now.len(),
                n <= u32::MAX,
                forall|id: ValueId| id.0 < i ==> #[trigger] self@.value_sound(id),
            decreases n - i,
        {
            if let Some(entry) = self.ir.get_value(ValueId(i as u32)) {
                if entry.value.ty.0 as usize >= self.type_count() {
                    assert(!self@.value_sound(ValueId(i as u32)));
                    return false;
                }
            }
            assert(self@.value_sound(ValueId(i as u32)));
            i += 1;
        }
        let n: usize = self.ir.block_count();
        let mut i: usize = 0;
        while i < n
            invariant
                self.inv(),
                i <= n,
                n == self@.ir.blocks.now.len(),
                n <= u32::MAX,
                forall|id: BlockId| id.0 < i ==> #[trigger] self@.block_sound(id),
            decreases n - i,
        {
            if let Some(block) = self.ir.get_block(BlockId(i as u32)) {
                if !self.ops_live(&block.operations) {
                    assert(!self@.block_sound(BlockId(i as u32)));
                    return false;
                }
            }
            assert(self@.block_sound(BlockId(i as u32)));
            i += 1;
        }
        let n: usize = self.ir.region_count();
        let mut i: usize = 0;
        while i < n
            invariant
                self.inv(),
                i <= n,
                n == self@.ir.regions.now.len(),
                n <= u32::MAX,
                forall|id: RegionId| id.0 < i ==> #[trigger] self@.region_sound(id),
            decreases n - i,
        {
            if !self.region_is_sound(RegionId(i as u32)) {
                return false;
            }
            i += 1;
        }
        true
    }
}

} // verus!

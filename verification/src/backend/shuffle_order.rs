//! Re-linearization of a machine block: order inside one is one topological order
//! of its dependence graph, and another one is put in its place.
use vstd::prelude::*;
use crate::backend::instructions::fails;
use crate::backend::instructions::PassError;
use crate::backend::instructions::PassErrorView;
use crate::context::Context;
use crate::context::ContextView;
use crate::ids::BlockId;
use crate::ids::OpId;
use crate::ids::RegionId;
use crate::ir::BodyView;
use crate::ir::RegionBody;
use crate::text::cat3;
use crate::text::decimal;
use crate::text::decimal_string;

verus! {

impl ContextView {
    /// The blocks a region holds.
    pub open spec fn blocks_in(self, region: RegionId) -> Seq<BlockId> {
        match self.ir.region(region) {
            Some(r) => match r.body {
                BodyView::Blocks(blocks) => blocks,
                BodyView::Nodes(_, _, _) => Seq::empty(),
            },
            None => Seq::empty(),
        }
    }

    /// Whether `block` can be put in another order: it holds two operations.
    pub open spec fn has_orders(self, block: BlockId) -> bool {
        self.ir.block(block) is Some && self.ir.block(block)->0.operations.len() >= 2
    }

    /// The blocks of the first `n` of `regions` that can be put in another order.
    pub open spec fn orderable(self, regions: Seq<RegionId>, n: int) -> Seq<BlockId>
        decreases n,
    {
        if n <= 0 {
            Seq::empty()
        } else {
            self.orderable(regions, n - 1) + self.blocks_in(regions[n - 1]).filter(
                |b: BlockId| self.has_orders(b),
            )
        }
    }
}

/// The blocks of `symbol` that can be put in another order, in program order.
pub fn blocks_to_shuffle(context: &Context, symbol: OpId) -> (r: Vec<BlockId>)
    requires
        context.inv(),
        context@.ir.op(symbol) is Some,
    ensures
        r@ == context@.orderable(
            context@.ir.op(symbol)->0.regions,
            context@.ir.op(symbol)->0.regions.len() as int,
        ),
{
    let regions = context.regions_of(symbol);
    let ghost wanted = |b: BlockId| context@.has_orders(b);
    let mut r: Vec<BlockId> = Vec::new();
    let mut i: usize = 0;
    while i < regions.len()
        invariant
            context.inv(),
            i <= regions.len(),
            wanted == (|b: BlockId| context@.has_orders(b)),
            r@ =~= context@.orderable(regions@, i as int),
        decreases regions.len() - i,
    {
        let region = regions[i];
        let ghost before = r@;
        if context.has_region(region) {
            if let RegionBody::Blocks(blocks) = &context.region_ref(region).body {
                let mut k: usize = 0;
                assert(blocks@.take(0).filter(wanted) =~= Seq::empty()) by {
                    reveal(Seq::filter);
                }
                while k < blocks.len()
                    invariant
                        context.inv(),
                        k <= blocks.len(),
                        wanted == (|b: BlockId| context@.has_orders(b)),
                        r@ =~= before + blocks@.take(k as int).filter(wanted),
                    decreases blocks.len() - k,
                {
                    let block = blocks[k];
                    if context.has_block(block) && context.block_ref(block).operations.len() >= 2 {
                        r.push(block);
                    }
                    proof {
                        let t = blocks@.take(k + 1);
                        assert(t.drop_last() =~= blocks@.take(k as int));
                        assert(t.last() == block);
                        reveal(Seq::filter);
                    }
                    k += 1;
                }
                assert(blocks@.take(k as int) =~= blocks@);
            } else {
                assert(Seq::<BlockId>::empty().filter(wanted) =~= Seq::empty()) by {
                    reveal(Seq::filter);
                }
            }
        } else {
            assert(Seq::<BlockId>::empty().filter(wanted) =~= Seq::empty()) by {
                reveal(Seq::filter);
            }
        }
        i += 1;
    }
    r
}

/// Puts `block` in the order its dependence graph was found to allow. A graph
/// with a cycle allows none.
pub fn reorder(context: &mut Context, block: BlockId, order: Option<Vec<OpId>>) -> (r: Result<
    (),
    PassError,
>)
    requires
        old(context).inv(),
        old(context)@.ir.block(block) is Some,
        order is Some ==> order->0@.to_multiset() == old(context)@.ir.block(
            block,
        )->0.operations.to_multiset(),
    ensures
        final(context).inv(),
        match order {
            Some(ops) => r is Ok && final(context)@ == old(context)@.with_block_ops(block, ops@),
            None => final(context)@ == old(context)@ && fails(
                r,
                PassErrorView::InvalidRuleSet(
                    "cyclic dependences in BlockId("@ + decimal(block.0 as nat) + ")"@,
                ),
            ),
        },
{
    match order {
        Some(ops) => {
            context.get_block(block).set_ops(context, ops);
            Ok(())
        },
        None => Err(
            PassError::InvalidRuleSet(
                cat3("cyclic dependences in BlockId(", decimal_string(block.0 as u64).as_str(), ")"),
            ),
        ),
    }
}

} // verus!

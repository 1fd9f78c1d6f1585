//! Swapping a region's body: built off to the side, then put in with one edit.
use vstd::prelude::*;
use crate::context::edits::blocks_placed;
use crate::context::edits::ops_placed;
use crate::context::edits::ports_placed;
use crate::context::moved_to;
use crate::context::owned::block_owned;
use crate::context::owned::op_owned;
use crate::context::owned::reclaimed;
use crate::context::owned::region_owned;
use crate::context::owned::value_owned;
use crate::context::regions::ops_reported;
use crate::context::regions::readers;
use crate::context::regions::reads_replaced;
use crate::context::regions::value_replaced;
use crate::context::resolved;
use crate::context::Context;
use crate::context::ContextView;
use crate::ids::BlockId;
use crate::ids::OpId;
use crate::ids::RegionId;
use crate::ids::TypeId;
use crate::ids::ValueId;
use crate::ir::copy_list;
use crate::ir::BodyView;
use crate::ir::IrView;
use crate::ir::Parent;
use crate::ir::Region;
use crate::ir::RegionBody;
use crate::ir::RegionView;
use crate::ir::Value;
use crate::overlay::Record;

verus! {

/// A region body under construction, detached from the live IR.
///
/// Its blocks, values and ops exist from the moment they are built, but they
/// belong to no region until the staging is swapped in: they print nowhere,
/// bump no version, and dirty no subtree. Staged ops may take values defined
/// outside the region as operands; those uses become live with the swap and
/// are dropped again if the staging is discarded.
///
/// Made by [`Context::stage_region`], put in by
/// [`Context::replace_region_contents`], dropped by [`StagedRegion::discard`].
pub struct StagedRegion {
    pub blocks: Vec<BlockId>,
    pub remap: Vec<(ValueId, ValueId)>,
}

/// The context after the first `n` replacements of `remap`, in order.
pub open spec fn values_replaced(
    context: ContextView,
    remap: Seq<(ValueId, ValueId)>,
    n: nat,
) -> ContextView
    decreases n,
{
    if n == 0 {
        context
    } else {
        value_replaced(
            values_replaced(context, remap, (n - 1) as nat),
            remap[n - 1].0,
            remap[n - 1].1,
        )
    }
}

/// The moves after the first `n` replacements of `remap`, in order.
pub open spec fn moved_by(
    moved: Seq<(ValueId, ValueId)>,
    base: nat,
    remap: Seq<(ValueId, ValueId)>,
    n: int,
) -> Seq<(ValueId, ValueId)>
    decreases n,
{
    if n <= 0 {
        moved
    } else {
        let before = moved_by(moved, base, remap, n - 1);
        let (old_value, new_value) = remap[n - 1];
        if old_value == new_value {
            before
        } else {
            moved_to(before, base, old_value, resolved(before, new_value))
        }
    }
}

/// Whether replacement `i` of `remap` does not lead back to the value it replaces,
/// once those before it are made.
pub open spec fn leads_on(
    moved: Seq<(ValueId, ValueId)>,
    base: nat,
    remap: Seq<(ValueId, ValueId)>,
    i: int,
) -> bool {
    remap[i].0 == remap[i].1 || resolved(moved_by(moved, base, remap, i), remap[i].1)
        != remap[i].0
}

proof fn reporting_keeps_moves(context: ContextView, ops: Seq<OpId>, n: nat)
    ensures
        ops_reported(context, ops, n).moved == context.moved,
        ops_reported(context, ops, n).ir == context.ir,
    decreases n,
{
    if n > 0 {
        reporting_keeps_moves(context, ops, (n - 1) as nat);
    }
}

proof fn replacing_keeps_values(
    ir: IrView,
    ops: Seq<OpId>,
    old_value: ValueId,
    new_value: ValueId,
    n: nat,
)
    ensures
        reads_replaced(ir, ops, old_value, new_value, n).values == ir.values,
    decreases n,
{
    if n > 0 {
        replacing_keeps_values(ir, ops, old_value, new_value, (n - 1) as nat);
    }
}

proof fn placing_keeps_values(
    ir: IrView,
    blocks: Seq<BlockId>,
    region: Option<RegionId>,
    n: nat,
)
    ensures
        blocks_placed(ir, blocks, region, n).values == ir.values,
    decreases n,
{
    if n > 0 {
        placing_keeps_values(ir, blocks, region, (n - 1) as nat);
    }
}

proof fn moves_add_up(context: ContextView, remap: Seq<(ValueId, ValueId)>, n: nat)
    ensures
        values_replaced(context, remap, n).moved == moved_by(
            context.moved,
            context.ir.values.committed.len(),
            remap,
            n as int,
        ),
        values_replaced(context, remap, n).ir.values == context.ir.values,
    decreases n,
{
    if n > 0 {
        moves_add_up(context, remap, (n - 1) as nat);
        let before = values_replaced(context, remap, (n - 1) as nat);
        let (old_value, new_value) = remap[n - 1];
        let users = readers(before, old_value, before.ir.ops.now.len());
        let target = before.resolve(new_value);
        replacing_keeps_values(before.ir, users, old_value, target, users.len());
        let replaced = ContextView {
            ir: reads_replaced(before.ir, users, old_value, target, users.len()),
            moved: moved_to(before.moved, before.ir.values.committed.len(), old_value, target),
            ..before
        };
        reporting_keeps_moves(replaced, users, users.len());
    }
}

/// The ordered `region`, where it is live, holding `blocks`.
pub open spec fn blocks_set(ir: IrView, region: RegionId, blocks: Seq<BlockId>) -> IrView {
    match ir.region(region) {
        Some(r) => ir.put_region(region, RegionView { body: BodyView::Blocks(blocks), ..r }),
        None => ir,
    }
}

/// `types` as values minted one after another, from `first`.
pub open spec fn minted(types: Seq<TypeId>, first: nat) -> Seq<Value> {
    Seq::new(
        types.len(),
        |i: int| Value { id: ValueId((first + i) as u32), ty: types[i], defining_op: None },
    )
}

/// The context with the first `n` of `types` minted as values.
pub open spec fn with_minted(context: ContextView, types: Seq<TypeId>, n: nat) -> ContextView
    decreases n,
{
    if n == 0 {
        context
    } else {
        with_minted(context, types, (n - 1) as nat).with_value(types[n - 1], None)
    }
}

proof fn minting_counts(context: ContextView, types: Seq<TypeId>, n: nat)
    ensures
        with_minted(context, types, n).ir.values.now.len() == context.ir.values.now.len() + n,
        with_minted(context, types, n).ir.blocks == context.ir.blocks,
    decreases n,
{
    if n > 0 {
        minting_counts(context, types, (n - 1) as nat);
    }
}

impl StagedRegion {
    /// Appends a block carrying one argument per entry of `argument_types`. The
    /// first staged block becomes the region's entry.
    pub fn append_block(&mut self, context: &mut Context, argument_types: &Vec<TypeId>) -> (id:
        BlockId)
        requires
            old(context).inv(),
            old(context)@.ir.values.now.len() + argument_types@.len() < u32::MAX,
            old(context)@.ir.blocks.now.len() < u32::MAX,
        ensures
            final(context).inv(),
            id.0 == old(context)@.ir.blocks.now.len(),
            final(context)@ == with_minted(
                old(context)@,
                argument_types@,
                argument_types@.len(),
            ).with_block(minted(argument_types@, old(context)@.ir.values.now.len())),
            final(self).blocks@ == old(self).blocks@.push(id),
            final(self).remap@ == old(self).remap@,
    {
        let ghost before = context@;
        let ghost first = context@.ir.values.now.len();
        let mut arguments: Vec<Value> = Vec::new();
        let mut i: usize = 0;
        while i < argument_types.len()
            invariant
                i <= argument_types.len(),
                context.inv(),
                context@ == with_minted(before, argument_types@, i as nat),
                first == before.ir.values.now.len(),
                first + argument_types@.len() < u32::MAX,
                arguments@ =~= minted(argument_types@, first).take(i as int),
                forall|j: int|
                    0 <= j < arguments@.len() ==> context@.ir.value(
                        (#[trigger] arguments@[j]).id,
                    ) is Some,
            decreases argument_types.len() - i,
        {
            proof {
                minting_counts(before, argument_types@, i as nat);
            }
            let ghost here = context@;
            let v = context.create_value(argument_types[i], None);
            assert(v == minted(argument_types@, first)[i as int]);
            let ghost listed = arguments@;
            arguments.push(v);
            proof {
                assert forall|j: int| 0 <= j < arguments@.len() implies context@.ir.value(
                    (#[trigger] arguments@[j]).id,
                ) is Some by {
                    if j < listed.len() {
                        assert(arguments@[j] == listed[j]);
                        assert(here.ir.value(listed[j].id) is Some);
                        assert(listed[j].id.0 < here.ir.values.now.len());
                    }
                }
            }
            i += 1;
        }
        proof {
            minting_counts(before, argument_types@, i as nat);
            assert(minted(argument_types@, first).take(i as int) =~= minted(
                argument_types@,
                first,
            ));
        }
        let id = context.create_block(arguments);
        self.blocks.push(id);
        id
    }

    /// The `index`-th argument of a staged block, for staged ops to consume.
    pub fn block_argument(&self, context: &Context, block: BlockId, index: usize) -> (v: Value)
        requires
            context.inv(),
            context@.ir.block(block) is Some,
            index < context@.ir.block(block)->0.arguments.len(),
        ensures
            v == context@.ir.block(block)->0.arguments[index as int],
    {
        context.block_ref(block).arguments[index]
    }

    /// Appends `op` after everything the staged block holds.
    pub fn append_op(&self, context: &mut Context, block: BlockId, op: OpId)
        requires
            old(context).inv(),
            old(context)@.ir.block(block) is Some,
            old(context)@.ir.op(op) is Some,
        ensures
            final(context).inv(),
            final(context)@ == old(context)@.with_op_in_block(
                block,
                old(context)@.ir.block(block)->0.operations.push(op),
                op,
            ),
    {
        context.append_op(block, op);
    }

    /// On the swap, retargets every use of `old_value` that outlives it to
    /// `new_value`.
    pub fn replace_value(&mut self, old_value: ValueId, new_value: ValueId)
        ensures
            final(self).blocks@ == old(self).blocks@,
            final(self).remap@ == old(self).remap@.push((old_value, new_value)),
    {
        self.remap.push((old_value, new_value));
    }

    /// Drops the staged blocks and everything in them.
    pub fn discard(self, context: &mut Context)
        requires
            old(context).inv(),
        ensures
            final(context).inv(),
            final(context)@ == old(context)@.with_ir(final(context)@.ir),
            reclaimed(old(context)@.ir, final(context)@.ir, Seq::empty(), self.blocks@),
    {
        context.detach_subtree(&self.blocks);
    }
}

/// `after` is `before` with the body of the ordered `region` swapped for
/// `blocks`: the old blocks and all they own are gone, the new ones belong to
/// the region, its owner's subtree is reported once, and then the uses `remap`
/// names are retargeted.
pub open spec fn contents_replaced(
    before: ContextView,
    after: ContextView,
    region: RegionId,
    blocks: Seq<BlockId>,
    remap: Seq<(ValueId, ValueId)>,
) -> bool {
    exists|cleared: IrView| #[trigger]
        reclaimed(
            before.ir,
            cleared,
            Seq::empty(),
            before.ir.region(region)->0.body->Blocks_0,
        ) && after == values_replaced(
            before.with_ir(
                blocks_placed(
                    blocks_set(cleared, region, blocks),
                    blocks,
                    Some(region),
                    blocks.len(),
                ),
            ).reported_subtree(before.ir.region(region)->0.parent_op),
            remap,
            remap.len(),
        )
}

/// `after` is `before` with the ordered `region` made the unordered region
/// `staged` was built as, and `staged` gone.
pub open spec fn nodes_swapped_in(
    before: ContextView,
    after: ContextView,
    region: RegionId,
    staged: RegionId,
) -> bool {
    exists|cleared: IrView| #[trigger]
        reclaimed(
            before.ir,
            cleared,
            Seq::empty(),
            before.ir.region(region)->0.body->Blocks_0,
        ) && after == before.with_ir(
            nodes_moved(cleared, region, staged),
        ).reported_subtree(before.ir.region(region)->0.parent_op)
}

/// The IR with the body of the unordered region `staged` moved to `region`.
pub open spec fn nodes_moved(ir: IrView, region: RegionId, staged: RegionId) -> IrView {
    let from = ir.region(staged)->0;
    let ports = from.body->Nodes_0;
    let ops = from.body->Nodes_1;
    let emptied = ir.put_region(
        staged,
        RegionView { body: BodyView::Blocks(Seq::empty()), ..from },
    );
    let placed = ops_placed(
        ports_placed(emptied, ports, Some(region), ports.len()),
        ops,
        Some(Parent::Region(region)),
        ops.len(),
    );
    placed.put_region(
        region,
        RegionView { body: from.body, ..ir.region(region)->0 },
    ).erase_region(staged)
}

/// `after` is `before` with the unordered `region` made the ordered one that
/// `blocks` spell: what it still held is gone, its ports belong to no region,
/// and the blocks belong to it.
pub open spec fn blocks_swapped_in(
    before: ContextView,
    after: ContextView,
    region: RegionId,
    blocks: Seq<BlockId>,
) -> bool {
    exists|cleared: IrView| #[trigger]
        reclaimed(before.ir, cleared, before.node_ops(region), Seq::empty()) && after
            == before.with_ir(
            blocks_placed(
                ports_placed(
                    blocks_set(cleared, region, blocks),
                    before.node_ports(region),
                    None,
                    before.node_ports(region).len(),
                ),
                blocks,
                Some(region),
                blocks.len(),
            ),
        ).reported_subtree(before.ir.region(region)->0.parent_op)
}

impl Context {
    /// Begins building a region body off to the side of the live IR.
    ///
    /// The staged blocks belong to no region, so building them bumps no version
    /// and dirties no subtree. Hand the result to
    /// [`Context::replace_region_contents`] to swap it in, or discard it.
    pub fn stage_region(&self) -> (staged: StagedRegion)
        ensures
            staged.blocks@ == Seq::<BlockId>::empty(),
            staged.remap@ == Seq::<(ValueId, ValueId)>::empty(),
    {
        StagedRegion { blocks: Vec::new(), remap: Vec::new() }
    }

    /// Takes the subtree under `blocks` out of the live IR. Bumps no version:
    /// the caller reports the edit.
    pub(crate) fn detach_subtree(&mut self, blocks: &Vec<BlockId>)
        requires
            old(self).inv(),
        ensures
            final(self).inv(),
            final(self)@ == old(self)@.with_ir(final(self)@.ir),
            reclaimed(old(self)@.ir, final(self)@.ir, Seq::empty(), blocks@),
    {
        let none: Vec<OpId> = Vec::new();
        assert(none@ =~= Seq::<OpId>::empty());
        self.reclaim(none, copy_list(blocks));
    }

    /// Replaces the whole block list of `region` at once, where it is live.
    fn set_region_blocks(&mut self, region: RegionId, blocks: Vec<BlockId>)
        requires
            old(self).inv(),
        ensures
            final(self).inv(),
            final(self)@ == old(self)@.with_ir(blocks_set(old(self)@.ir, region, blocks@)),
    {
        if let Some(held) = self.ir.get_region(region) {
            let mut held: Region = held.copy();
            held.body = RegionBody::Blocks(blocks);
            self.ir.put_region(region, held);
        }
    }

    /// The blocks of an ordered region.
    fn blocks_of(&self, region: RegionId) -> (r: Vec<BlockId>)
        requires
            self.inv(),
            self@.ir.region(region) is Some,
            self@.ir.region(region)->0.body is Blocks,
        ensures
            r@ == self@.ir.region(region)->0.body->Blocks_0,
    {
        match &self.ir.get_region(region).unwrap().body {
            RegionBody::Blocks(blocks) => copy_list(blocks),
            RegionBody::Nodes { .. } => Vec::new(),
        }
    }

    /// Swaps `staged` in as `region`'s contents, in one edit.
    ///
    /// The old contents leave the tree, the uses they held on surviving values
    /// are dropped, and no walk reaches into them. Uses of old values recorded
    /// with [`StagedRegion::replace_value`] are then retargeted to their staged
    /// replacements. The swap itself bumps the spine exactly once, at
    /// `region`'s owner, and dirties that one subtree.
    pub fn replace_region_contents(&mut self, region: RegionId, staged: StagedRegion)
        requires
            old(self).inv(),
            old(self)@.ir.region(region) is Some,
            old(self)@.ir.region(region)->0.body is Blocks,
            forall|i: int|
                0 <= i < staged.blocks@.len() ==> old(self)@.ir.block(
                    #[trigger] staged.blocks@[i],
                ) is Some && !block_owned(
                    old(self)@.ir,
                    Seq::empty(),
                    old(self)@.ir.region(region)->0.body->Blocks_0,
                    staged.blocks@[i],
                ),
            forall|i: int|
                0 <= i < staged.remap@.len() ==> (#[trigger] staged.remap@[i]).1.0 < u32::MAX
                    && leads_on(
                    old(self)@.moved,
                    old(self)@.ir.values.committed.len(),
                    staged.remap@,
                    i,
                ),
        ensures
            final(self).inv(),
            contents_replaced(
                old(self)@,
                final(self)@,
                region,
                staged.blocks@,
                staged.remap@,
            ),
    {
        let ghost before = self@;
        let owner = self.region_parent_op(region);
        let old_blocks = self.blocks_of(region);
        self.detach_subtree(&old_blocks);
        let ghost cleared = self@.ir;
        assert(cleared.discard().values.now == before.ir.discard().values.now);
        self.set_region_blocks(region, copy_list(&staged.blocks));
        assert(self@.ir.values == cleared.values);
        proof {
            placing_keeps_values(self@.ir, staged.blocks@, Some(region), staged.blocks@.len());
        }
        self.place_blocks(&staged.blocks, Some(region));
        self.report_subtree(owner);
        let ghost swapped = self@;
        let mut i: usize = 0;
        while i < staged.remap.len()
            invariant
                i <= staged.remap.len(),
                self.inv(),
                self@ == values_replaced(swapped, staged.remap@, i as nat),
                swapped.moved == before.moved,
                swapped.ir.values.committed == before.ir.values.committed,
                forall|i: int|
                    0 <= i < staged.remap@.len() ==> (#[trigger] staged.remap@[i]).1.0 < u32::MAX
                        && leads_on(
                        before.moved,
                        before.ir.values.committed.len(),
                        staged.remap@,
                        i,
                    ),
            decreases staged.remap.len() - i,
        {
            let (old_value, new_value) = staged.remap[i];
            proof {
                assert(staged.remap@[i as int].1.0 < u32::MAX);
                moves_add_up(swapped, staged.remap@, i as nat);
                assert(leads_on(
                    before.moved,
                    before.ir.values.committed.len(),
                    staged.remap@,
                    i as int,
                ));
            }
            self.replace_value_uses(old_value, new_value);
            i += 1;
        }
        assert(reclaimed(before.ir, cleared, Seq::empty(), old_blocks@));
    }

    /// Makes the ordered `region` the unordered region `staged` was built as:
    /// the old blocks leave the tree with whatever still sits in them, and
    /// `staged`'s ports, operations and results become `region`'s own. `staged`
    /// is gone afterwards.
    pub fn replace_region_with_nodes(&mut self, region: RegionId, staged: RegionId)
        requires
            old(self).inv(),
            old(self)@.ir.region(region) is Some,
            old(self)@.ir.region(region)->0.body is Blocks,
            old(self)@.is_nodes(staged),
            !region_owned(
                old(self)@.ir,
                Seq::empty(),
                old(self)@.ir.region(region)->0.body->Blocks_0,
                region,
            ),
            !region_owned(
                old(self)@.ir,
                Seq::empty(),
                old(self)@.ir.region(region)->0.body->Blocks_0,
                staged,
            ),
            forall|i: int|
                0 <= i < old(self)@.node_ops(staged).len() ==> old(self)@.ir.op(
                    #[trigger] old(self)@.node_ops(staged)[i],
                ) is Some && !op_owned(
                    old(self)@.ir,
                    Seq::empty(),
                    old(self)@.ir.region(region)->0.body->Blocks_0,
                    old(self)@.node_ops(staged)[i],
                ),
            forall|i: int|
                0 <= i < old(self)@.node_ports(staged).len() ==> old(self)@.ir.value(
                    (#[trigger] old(self)@.node_ports(staged)[i]).id,
                ) is Some && !value_owned(
                    old(self)@.ir,
                    Seq::empty(),
                    old(self)@.ir.region(region)->0.body->Blocks_0,
                    old(self)@.node_ports(staged)[i].id,
                ),
        ensures
            final(self).inv(),
            nodes_swapped_in(old(self)@, final(self)@, region, staged),
    {
        let ghost before = self@;
        let owner = self.region_parent_op(region);
        let old_blocks = self.blocks_of(region);
        self.detach_subtree(&old_blocks);
        let ghost cleared = self@.ir;
        assert(cleared.region(region) == before.ir.region(region));
        assert(cleared.region(staged) == before.ir.region(staged));
        let mut from: Region = self.ir.get_region(staged).unwrap().copy();
        let moved: Region = self.ir.get_region(staged).unwrap().copy();
        let mut to: Region = self.ir.get_region(region).unwrap().copy();
        let (ports, ops, _results) = self.nodes_of(staged);
        from.body = RegionBody::Blocks(Vec::new());
        assert(from@.body->Blocks_0 =~= Seq::empty());
        self.ir.put_region(staged, from);
        self.place_ports(&ports, Some(region));
        self.place_ops(&ops, Some(Parent::Region(region)));
        proof {
            crate::context::nodes::placing_keeps_regions(
                cleared.put_region(
                    staged,
                    RegionView {
                        body: BodyView::Blocks(Seq::empty()),
                        ..cleared.region(staged)->0
                    },
                ),
                ports@,
                ops@,
                region,
            );
            assert(staged.0 != region.0);
        }
        to.body = moved.body;
        self.ir.put_region(region, to);
        self.ir.erase_region(staged);
        self.report_subtree(owner);
        assert(reclaimed(before.ir, cleared, Seq::empty(), old_blocks@));
        assert(self@ == before.with_ir(nodes_moved(cleared, region, staged)).reported_subtree(
            before.ir.region(region)->0.parent_op,
        ));
    }

    /// Makes the unordered `region` the ordered one `blocks` spell: what the
    /// blocks hold was moved out of the region already, its ports were adopted
    /// as block arguments, and whatever still sits in the region leaves the
    /// tree with it. The first block is the entry.
    pub fn replace_region_with_blocks(&mut self, region: RegionId, blocks: Vec<BlockId>)
        requires
            old(self).inv(),
            old(self)@.is_nodes(region),
            !region_owned(old(self)@.ir, old(self)@.node_ops(region), Seq::empty(), region),
            forall|i: int|
                0 <= i < blocks@.len() ==> old(self)@.ir.block(#[trigger] blocks@[i]) is Some
                    && !block_owned(
                    old(self)@.ir,
                    old(self)@.node_ops(region),
                    Seq::empty(),
                    blocks@[i],
                ),
        ensures
            final(self).inv(),
            blocks_swapped_in(old(self)@, final(self)@, region, blocks@),
    {
        let ghost before = self@;
        let owner = self.region_parent_op(region);
        let (ports, leftover, _results) = self.nodes_of(region);
        let none: Vec<BlockId> = Vec::new();
        assert(none@ =~= Seq::<BlockId>::empty());
        self.reclaim(leftover, none);
        let ghost cleared = self@.ir;
        self.set_region_blocks(region, copy_list(&blocks));
        self.place_ports(&ports, None);
        self.place_blocks(&blocks, Some(region));
        self.report_subtree(owner);
        assert(reclaimed(before.ir, cleared, before.node_ops(region), Seq::empty()));
    }
}

} // verus!

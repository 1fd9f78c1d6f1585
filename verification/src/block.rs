//! Basic blocks and regions through their handles.
use vstd::prelude::*;
use crate::attributes::copy_attributes;
use crate::attributes::find_attribute;
use crate::attributes::named_views;
use crate::attributes::AttributeValue;
use crate::attributes::NamedAttribute;
use crate::context::edits::first_position;
use crate::context::edits::op_position;
use crate::context::BlockHandle;
use crate::context::Context;
use crate::context::OpHandle;
use crate::context::RegionHandle;
use crate::ids::BlockId;
use crate::ids::OpId;
use crate::ids::RegionId;
use crate::ids::ValueId;
use crate::ir::copy_list;
use crate::ir::Value;

verus! {

/// Whether `a` comes before `b` in a list, where the list holds both.
pub open spec fn comes_before(list: Seq<OpId>, a: OpId, b: OpId) -> bool {
    match (first_position(list, a), first_position(list, b)) {
        (Some(i), Some(j)) => i < j,
        _ => false,
    }
}

impl BlockHandle {
    pub fn id(&self) -> (r: BlockId)
        ensures
            r == self.id,
    {
        self.id
    }

    /// The values the block takes, in order.
    pub fn arguments(&self, context: &Context) -> (r: Vec<Value>)
        requires
            context.inv(),
            context@.ir.block(self.id) is Some,
        ensures
            r@ == context@.ir.block(self.id)->0.arguments,
    {
        copy_list(&context.block_ref(self.id).arguments)
    }

    /// The block's attributes, in order.
    pub fn attributes(&self, context: &Context) -> (r: Vec<NamedAttribute>)
        requires
            context.inv(),
            context@.ir.block(self.id) is Some,
        ensures
            named_views(r@) == context@.ir.block(self.id)->0.attributes,
    {
        copy_attributes(&context.block_ref(self.id).attributes)
    }

    /// The value of the attribute called `name`.
    pub fn attr(&self, context: &Context, name: &str) -> (r: Option<AttributeValue>)
        requires
            context.inv(),
            context@.ir.block(self.id) is Some,
        ensures
            r is Some <==> context@.block_attr(self.id, name@) is Some,
            r is Some ==> Some(r->0@) == context@.block_attr(self.id, name@),
    {
        match find_attribute(&context.block_ref(self.id).attributes, name) {
            Some(value) => Some(value.copy()),
            None => None,
        }
    }

    /// Sets (or replaces) a named attribute on this block.
    pub fn set_attr(&self, context: &mut Context, name: &str, value: AttributeValue)
        requires
            old(context).inv(),
            old(context)@.ir.block(self.id) is Some,
        ensures
            final(context).inv(),
            final(context)@ == old(context)@.with_block_attr(self.id, name@, value@),
    {
        context.set_block_attr(self.id, name, value);
    }

    /// How many operations the block holds.
    pub fn len(&self, context: &Context) -> (n: usize)
        requires
            context.inv(),
            context@.ir.block(self.id) is Some,
        ensures
            n == context@.ir.block(self.id)->0.operations.len(),
    {
        context.block_ref(self.id).operations.len()
    }

    /// Whether the block holds no operation.
    pub fn is_empty(&self, context: &Context) -> (r: bool)
        requires
            context.inv(),
            context@.ir.block(self.id) is Some,
        ensures
            r == (context@.ir.block(self.id)->0.operations.len() == 0),
    {
        self.len(context) == 0
    }

    /// The operations the block holds, in order.
    pub fn op_ids(&self, context: &Context) -> (r: Vec<OpId>)
        requires
            context.inv(),
            context@.ir.block(self.id) is Some,
        ensures
            r@ == context@.ir.block(self.id)->0.operations,
    {
        copy_list(&context.block_ref(self.id).operations)
    }

    /// Puts `id` before the operation at `index`.
    pub fn insert(&self, context: &mut Context, index: usize, id: OpId)
        requires
            old(context).inv(),
            old(context)@.ir.op(id) is Some,
            old(context)@.ir.block(self.id) is Some,
            index <= old(context)@.ir.block(self.id)->0.operations.len(),
        ensures
            final(context).inv(),
            final(context)@ == old(context)@.with_op_in_block(
                self.id,
                old(context)@.ir.block(self.id)->0.operations.insert(index as int, id),
                id,
            ),
    {
        context.insert_op(self.id, index, id);
    }

    /// Adds `id` after every operation the block currently holds.
    pub fn append(&self, context: &mut Context, id: OpId)
        requires
            old(context).inv(),
            old(context)@.ir.op(id) is Some,
            old(context)@.ir.block(self.id) is Some,
        ensures
            final(context).inv(),
            final(context)@ == old(context)@.with_op_in_block(
                self.id,
                old(context)@.ir.block(self.id)->0.operations.push(id),
                id,
            ),
    {
        context.append_op(self.id, id);
    }

    /// Appends `op` and hands it back, for building a block in sequence.
    pub fn append_op(&self, context: &mut Context, op: OpHandle) -> (r: OpHandle)
        requires
            old(context).inv(),
            old(context)@.ir.op(op.id) is Some,
            old(context)@.ir.block(self.id) is Some,
        ensures
            final(context).inv(),
            r == op,
            final(context)@ == old(context)@.with_op_in_block(
                self.id,
                old(context)@.ir.block(self.id)->0.operations.push(op.id),
                op.id,
            ),
    {
        self.append(context, op.id);
        op
    }

    /// Puts `new_op` where the block holds `old_op`. Answers whether it did.
    pub fn replace_op(&self, context: &mut Context, old_op: OpId, new_op: OpId) -> (r: bool)
        requires
            old(context).inv(),
            old(context)@.ir.op(new_op) is Some,
        ensures
            final(context).inv(),
            r == (old(context)@.ir.block(self.id) is Some && first_position(
                old(context)@.ir.block(self.id)->0.operations,
                old_op,
            ) is Some),
            !r ==> final(context)@ == old(context)@,
            r ==> final(context)@ == old(context)@.with_op_replaced(
                self.id,
                first_position(old(context)@.ir.block(self.id)->0.operations, old_op)->0,
                old_op,
                new_op,
            ),
    {
        context.replace_op_in_block(self.id, old_op, new_op)
    }

    /// Chooses another order for the operations the block already holds; `ops`
    /// is a permutation of [`op_ids`](Self::op_ids). Order inside a machine
    /// block is a linearization of its dependence graph, and this is how one is
    /// installed.
    pub fn set_ops(&self, context: &mut Context, ops: Vec<OpId>)
        requires
            old(context).inv(),
            old(context)@.ir.block(self.id) is Some,
            ops@.to_multiset() == old(context)@.ir.block(self.id)->0.operations.to_multiset(),
        ensures
            final(context).inv(),
            final(context)@ == old(context)@.with_block_ops(self.id, ops@),
    {
        context.set_block_ops(self.id, ops);
    }

    /// Takes `id` out of the block without erasing it. Answers whether the block
    /// held it.
    pub fn remove_op(&self, context: &mut Context, id: OpId) -> (r: bool)
        requires
            old(context).inv(),
        ensures
            final(context).inv(),
            r == (old(context)@.ir.block(self.id) is Some && first_position(
                old(context)@.ir.block(self.id)->0.operations,
                id,
            ) is Some),
            !r ==> final(context)@ == old(context)@,
            r ==> final(context)@ == old(context)@.with_op_removed(
                self.id,
                first_position(old(context)@.ir.block(self.id)->0.operations, id)->0,
                id,
            ),
    {
        context.remove_op_from_block(self.id, id)
    }

    /// Whether `a` comes before `b` in the block.
    pub fn is_before(&self, context: &Context, a: OpId, b: OpId) -> (r: bool)
        requires
            context.inv(),
            context@.ir.block(self.id) is Some,
        ensures
            r == comes_before(context@.ir.block(self.id)->0.operations, a, b),
    {
        let operations = &context.block_ref(self.id).operations;
        match (op_position(operations, a), op_position(operations, b)) {
            (Some(i), Some(j)) => i < j,
            _ => false,
        }
    }
}

/// No operation comes before itself, and of two that a block holds, one comes
/// before the other and not the other way round.
pub proof fn before_is_an_order(list: Seq<OpId>, a: OpId, b: OpId)
    ensures
        !comes_before(list, a, a),
        !(comes_before(list, a, b) && comes_before(list, b, a)),
        list.contains(a) && list.contains(b) && a != b ==> comes_before(list, a, b)
            || comes_before(list, b, a),
{
    crate::context::edits::first_position_is_first(list, a);
    crate::context::edits::first_position_is_first(list, b);
}

impl RegionHandle {
    pub fn id(&self) -> (r: RegionId)
        ensures
            r == self.id,
    {
        self.id
    }

    /// Whether only dependencies order what the region holds.
    pub fn is_nodes(&self, context: &Context) -> (r: bool)
        requires
            context.inv(),
        ensures
            r == context@.is_nodes(self.id),
    {
        context.region_is_nodes(self.id)
    }

    /// The operations of the region.
    pub fn op_ids(&self, context: &Context) -> (r: Vec<OpId>)
        requires
            context.inv(),
        ensures
            r@ == context@.region_ops(self.id),
    {
        context.region_op_ids(self.id)
    }

    /// The values the region takes: its ports, or its entry's arguments.
    pub fn ports(&self, context: &Context) -> (r: Vec<Value>)
        requires
            context.inv(),
        ensures
            r@ == context@.region_ports(self.id),
    {
        context.region_ports(self.id)
    }

    /// The values an unordered region produces.
    pub fn results(&self, context: &Context) -> (r: Vec<ValueId>)
        requires
            context.inv(),
        ensures
            r@ == context@.region_results(self.id),
    {
        context.region_results(self.id)
    }
}

} // verus!

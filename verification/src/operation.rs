//! Operations through their handles, and the parts a builder assembles one
//! from.
use vstd::prelude::*;
use crate::attributes::named_views;
use crate::attributes::AttributeValue;
use crate::attributes::NamedAttribute;
use crate::context::edits::NewOp;
use crate::context::Context;
use crate::context::ContextView;
use crate::context::OpHandle;
use crate::ids::BlockId;
use crate::ids::OpId;
use crate::ids::RegionId;
use crate::ids::ValueId;
use crate::interfaces::Interface;
use crate::lists::RegionIds;
use crate::lists::ValueIds;
use crate::lists::MAX_IDS;
use crate::text::same;
use crate::overlay::ERASED;

verus! {

/// The spelling of an operation's name, for textual output.
#[derive(Debug, Clone, Copy)]
pub struct OperationName(pub &'static str);

impl OperationName {
    /// The textual spelling parsers and printers use.
    pub fn as_str(self) -> (s: &'static str)
        ensures
            s@ == self.0@,
    {
        self.0
    }
}

/// The spelling of a dialect's name, for textual output.
#[derive(Debug, Clone, Copy)]
pub struct DialectName(pub &'static str);

impl DialectName {
    /// The name of the dialect a pair of spellings belongs to.
    pub fn of(identity: (&'static str, &'static str)) -> (d: Self)
        ensures
            d.0@ == identity.0@,
    {
        DialectName(identity.0)
    }

    /// The textual spelling parsers and printers use.
    pub fn as_str(self) -> (s: &'static str)
        ensures
            s@ == self.0@,
    {
        self.0
    }
}

/// What a builder accumulates beside its declared ports: the attributes, and
/// the dependencies the op observes and leaves.
pub struct NewOpParts {
    pub attributes: Vec<NamedAttribute>,
    pub dep_operands: Vec<ValueId>,
    pub dep_results: usize,
}

impl Default for NewOpParts {
    fn default() -> (r: Self)
        ensures
            r.attributes@.len() == 0,
            r.dep_operands@.len() == 0,
            r.dep_results == 0,
    {
        NewOpParts { attributes: Vec::new(), dep_operands: Vec::new(), dep_results: 0 }
    }
}

/// The context after `n` states were minted.
pub open spec fn with_states(context: ContextView, n: nat) -> ContextView
    decreases n,
{
    if n == 0 {
        context
    } else {
        with_states(context, (n - 1) as nat).with_value(crate::ids::state_type(), None)
    }
}

/// The ids of `n` values minted from `first` on.
pub open spec fn minted_ids(first: nat, n: nat) -> Seq<ValueId> {
    Seq::new(n, |i: int| ValueId((first + i) as u32))
}

proof fn state_count(context: ContextView, n: nat)
    ensures
        with_states(context, n).ir.values.now.len() == context.ir.values.now.len() + n,
        with_states(context, n).names == context.names,
    decreases n,
{
    if n > 0 {
        state_count(context, (n - 1) as nat);
    }
}

/// The context after `identity` was given a dense id.
pub open spec fn with_op_name(context: ContextView, identity: (Seq<char>, Seq<char>)) -> ContextView {
    ContextView {
        names: if context.names.contains(identity) {
            context.names
        } else {
            context.names.push(identity)
        },
        ..context
    }
}

impl NewOp {
    /// The op a builder assembled: its value ports, and in `parts` the
    /// attributes and the dependencies trailing those ports.
    pub fn new(
        identity: (&'static str, &'static str),
        context: &mut Context,
        operands: Vec<ValueId>,
        results: Vec<ValueId>,
        regions: Vec<RegionId>,
        parts: NewOpParts,
    ) -> (op: Self)
        requires
            old(context).inv(),
            old(context)@.names.len() < u32::MAX,
            old(context)@.ir.values.now.len() + parts.dep_results <= u32::MAX,
            parts.dep_operands@.len() <= u16::MAX,
            parts.dep_results <= u16::MAX,
        ensures
            final(context).inv(),
            final(context)@ == with_states(
                with_op_name(old(context)@, (identity.0@, identity.1@)),
                parts.dep_results as nat,
            ),
            op.name.0 < final(context)@.names.len(),
            final(context)@.names[op.name.0 as int] == (identity.0@, identity.1@),
            crate::context::edits::first_position(
                final(context)@.names,
                (identity.0@, identity.1@),
            ) == Some(op.name.0 as int),
            op.operands@ == operands@ + parts.dep_operands@,
            op.results@ == results@ + minted_ids(
                old(context)@.ir.values.now.len(),
                parts.dep_results as nat,
            ),
            op.dep_operands == parts.dep_operands@.len(),
            op.dep_results == parts.dep_results,
            op.regions@ == regions@,
            named_views(op.attributes@) == named_views(parts.attributes@),
    {
        let name = context.intern_op_name(identity.0, identity.1);
        let ghost named = context@;
        let ghost first = context@.ir.values.now.len();
        let dep_operands = parts.dep_operands.len() as u16;
        let mut operands = operands;
        let mut observed = parts.dep_operands;
        let ghost front = operands@;
        let ghost back = observed@;
        operands.append(&mut observed);
        assert(operands@ =~= front + back);
        let ghost plain = results@;
        let mut results = results;
        let mut i: usize = 0;
        while i < parts.dep_results
            invariant
                i <= parts.dep_results,
                context.inv(),
                first == named.ir.values.now.len(),
                first + parts.dep_results <= u32::MAX,
                context@ == with_states(named, i as nat),
                results@ =~= plain + minted_ids(first, i as nat),
            decreases parts.dep_results - i,
        {
            proof {
                state_count(named, i as nat);
            }
            results.push(context.create_state());
            i += 1;
        }
        proof {
            state_count(named, i as nat);
        }
        NewOp {
            name,
            operands,
            results,
            dep_operands,
            dep_results: parts.dep_results as u16,
            regions,
            attributes: parts.attributes,
        }
    }

    /// Describes an operation selected from textual input at a parser boundary.
    pub fn new_dynamic(
        identity: (&'static str, &'static str),
        context: &mut Context,
        operands: Vec<ValueId>,
        results: Vec<ValueId>,
        regions: Vec<RegionId>,
        attributes: Vec<NamedAttribute>,
    ) -> (op: Self)
        requires
            old(context).inv(),
            old(context)@.names.len() < u32::MAX,
        ensures
            final(context).inv(),
            final(context)@ == with_op_name(old(context)@, (identity.0@, identity.1@)),
            op.name.0 < final(context)@.names.len(),
            final(context)@.names[op.name.0 as int] == (identity.0@, identity.1@),
            crate::context::edits::first_position(
                final(context)@.names,
                (identity.0@, identity.1@),
            ) == Some(op.name.0 as int),
            op.operands@ == operands@,
            op.results@ == results@,
            op.dep_operands == 0,
            op.dep_results == 0,
            op.regions@ == regions@,
            named_views(op.attributes@) == named_views(attributes@),
    {
        let name = context.intern_op_name(identity.0, identity.1);
        NewOp { name, operands, results, dep_operands: 0, dep_results: 0, regions, attributes }
    }

    /// Marks the trailing `operands` operands and `results` results already in
    /// the lists as dependencies: what a copy of an op does with values it has
    /// already minted.
    pub fn with_dependency_counts(self, operands: usize, results: usize) -> (op: Self)
        requires
            operands <= u16::MAX,
            results <= u16::MAX,
        ensures
            op == (NewOp { dep_operands: operands as u16, dep_results: results as u16, ..self }),
    {
        NewOp {
            name: self.name,
            operands: self.operands,
            results: self.results,
            dep_operands: operands as u16,
            dep_results: results as u16,
            regions: self.regions,
            attributes: self.attributes,
        }
    }
}

impl ContextView {
    /// The operands of `op` that carry a value.
    pub open spec fn value_operands(self, op: OpId) -> Seq<ValueId> {
        let o = self.ir.op(op)->0;
        o.operands.take(o.operands.len() - o.dep_operands)
    }

    /// The trailing operands of `op` that are dependencies.
    pub open spec fn dep_operands(self, op: OpId) -> Seq<ValueId> {
        let o = self.ir.op(op)->0;
        o.operands.skip(o.operands.len() - o.dep_operands)
    }

    /// The results of `op` that carry a value.
    pub open spec fn value_results(self, op: OpId) -> Seq<ValueId> {
        let o = self.ir.op(op)->0;
        o.results.take(o.results.len() - o.dep_results)
    }

    /// The trailing results of `op` that are dependencies.
    pub open spec fn dep_results(self, op: OpId) -> Seq<ValueId> {
        let o = self.ir.op(op)->0;
        o.results.skip(o.results.len() - o.dep_results)
    }

    /// Whether `op` is live and can be read.
    pub open spec fn readable(self, op: OpId) -> bool {
        self.ir.op(op) is Some && self.op_sound(op)
    }

    /// Whether the live operation `op` is spelled `dialect.name`.
    pub open spec fn is_op(self, op: OpId, dialect: Seq<char>, name: Seq<char>) -> bool {
        self.identity(op) == (dialect, name)
    }
}

/// The values and dependencies of an operand list are its two ends.
pub proof fn operands_are_partitioned(context: ContextView, op: OpId)
    requires
        context.readable(op),
    ensures
        context.value_operands(op) + context.dep_operands(op) == context.ir.op(op)->0.operands,
        context.value_results(op) + context.dep_results(op) == context.ir.op(op)->0.results,
{
    let o = context.ir.op(op)->0;
    assert(context.value_operands(op) + context.dep_operands(op) =~= o.operands);
    assert(context.value_results(op) + context.dep_results(op) =~= o.results);
}

/// The entries of `list` from `from` on.
fn tail(list: &Vec<ValueId>, from: usize) -> (r: ValueIds)
    requires
        from <= list.len(),
        list.len() <= MAX_IDS,
    ensures
        r@ == list@.skip(from as int),
{
    let mut kept: Vec<ValueId> = Vec::new();
    let mut i: usize = from;
    while i < list.len()
        invariant
            from <= i <= list.len(),
            kept@ =~= list@.subrange(from as int, i as int),
        decreases list.len() - i,
    {
        kept.push(list[i]);
        i += 1;
    }
    assert(kept@ =~= list@.skip(from as int));
    ValueIds::from_slice(kept.as_slice())
}

impl OpHandle {
    /// Whether this handle still names the operation it was minted for. False
    /// once the op is erased, and once the edits that created it are dropped.
    pub fn is_live(&self, context: &Context) -> (r: bool)
        requires
            context.inv(),
        ensures
            r == (context@.ir.ops.generation(self.id.0, context@.epoch) == self.generation),
    {
        context.op_generation(self.id) == self.generation
    }

    /// Every operand: the values, then the trailing dependencies.
    pub fn operands(&self, context: &Context) -> (r: ValueIds)
        requires
            context.inv(),
            context@.readable(self.id),
        ensures
            r@ == context@.ir.op(self.id)->0.operands,
    {
        ValueIds::from_slice(context.operands_of(self.id).as_slice())
    }

    /// Every result: the values, then the trailing dependencies.
    pub fn results(&self, context: &Context) -> (r: ValueIds)
        requires
            context.inv(),
            context@.readable(self.id),
        ensures
            r@ == context@.ir.op(self.id)->0.results,
    {
        ValueIds::from_slice(context.results_of(self.id).as_slice())
    }

    /// The operands that carry a value.
    pub fn value_operands(&self, context: &Context) -> (r: ValueIds)
        requires
            context.inv(),
            context@.readable(self.id),
        ensures
            r@ == context@.value_operands(self.id),
    {
        let mut operands = self.operands(context);
        let n: usize = operands.len() - context.op_dep_counts(self.id).0;
        operands.truncate(n);
        assert(operands@ =~= context@.value_operands(self.id));
        operands
    }

    /// The trailing operands that are dependencies: the chains this op observes.
    pub fn dep_operands(&self, context: &Context) -> (r: ValueIds)
        requires
            context.inv(),
            context@.readable(self.id),
        ensures
            r@ == context@.dep_operands(self.id),
    {
        let operands = context.operands_of(self.id);
        tail(operands, operands.len() - context.op_dep_counts(self.id).0)
    }

    /// The results that carry a value.
    pub fn value_results(&self, context: &Context) -> (r: ValueIds)
        requires
            context.inv(),
            context@.readable(self.id),
        ensures
            r@ == context@.value_results(self.id),
    {
        let mut results = self.results(context);
        let n: usize = results.len() - context.op_dep_counts(self.id).1;
        results.truncate(n);
        assert(results@ =~= context@.value_results(self.id));
        results
    }

    /// The trailing results that are dependencies: the chains this op leaves.
    pub fn dep_results(&self, context: &Context) -> (r: ValueIds)
        requires
            context.inv(),
            context@.readable(self.id),
        ensures
            r@ == context@.dep_results(self.id),
    {
        let results = context.results_of(self.id);
        tail(results, results.len() - context.op_dep_counts(self.id).1)
    }

    /// The regions the operation owns, in order.
    pub fn regions(&self, context: &Context) -> (r: RegionIds)
        requires
            context.inv(),
            context@.readable(self.id),
        ensures
            r@ == context@.ir.op(self.id)->0.regions,
    {
        RegionIds::from_slice(context.regions_of(self.id).as_slice())
    }

    /// The operation's attributes, in order.
    pub fn attributes(&self, context: &Context) -> (r: Vec<NamedAttribute>)
        requires
            context.inv(),
        ensures
            named_views(r@) == match context@.ir.op(self.id) {
                Some(op) => op.attributes,
                None => Seq::empty(),
            },
    {
        context.op_attributes(self.id)
    }

    /// The value of the attribute called `name`.
    pub fn attr(&self, context: &Context, name: &str) -> (r: Option<AttributeValue>)
        requires
            context.inv(),
        ensures
            r is Some <==> context@.attr(self.id, name@) is Some,
            r is Some ==> Some(r->0@) == context@.attr(self.id, name@),
    {
        context.op_attr(self.id, name)
    }

    /// The name for textual output; an operation's kind is asked with
    /// [`OpHandle::is_name`].
    pub fn name(&self, context: &Context) -> (r: OperationName)
        requires
            context.inv(),
            context@.readable(self.id),
        ensures
            r.0@ == context@.identity(self.id).1,
    {
        OperationName(context.op_identity(self.id).1)
    }

    /// The dialect, for textual output.
    pub fn dialect(&self, context: &Context) -> (r: DialectName)
        requires
            context.inv(),
            context@.readable(self.id),
        ensures
            r.0@ == context@.identity(self.id).0,
    {
        DialectName::of(context.op_identity(self.id))
    }

    /// The block that holds this operation, or `None` if it is detached or the
    /// root.
    pub fn parent_block(&self, context: &Context) -> (r: Option<BlockId>)
        requires
            context.inv(),
        ensures
            r == match context@.ir.op(self.id) {
                Some(op) => match op.parent {
                    Some(crate::ir::Parent::Block(block)) => Some(block),
                    _ => None,
                },
                None => None,
            },
    {
        context.parent_block(self.id)
    }

    /// Whether the operation is of the kind spelled `dialect.name`.
    pub fn is_name(&self, context: &Context, dialect: &str, name: &str) -> (r: bool)
        requires
            context.inv(),
            context@.readable(self.id),
        ensures
            r == context@.is_op(self.id, dialect@, name@),
    {
        let identity = context.op_identity(self.id);
        same(identity.0, dialect) && same(identity.1, name)
    }

    /// The operation, where its kind makes the promise `interface`.
    pub fn as_interface(self, context: &Context, interface: Interface) -> (r: Option<OpHandle>)
        requires
            context.inv(),
            context@.readable(self.id),
        ensures
            r == if context@.has_interface(self.id, interface) {
                Some(self)
            } else {
                None
            },
    {
        if context.has_interface(self.id, interface) {
            Some(self)
        } else {
            None
        }
    }

    /// Whether operations of this kind make the promise `interface`.
    pub fn has_interface(&self, context: &Context, interface: Interface) -> (r: bool)
        requires
            context.inv(),
            context@.readable(self.id),
        ensures
            r == context@.has_interface(self.id, interface),
    {
        context.has_interface(self.id, interface)
    }
}

/// A handle minted for a live operation stays live through a commit, and is dead once
/// the operation is gone or the edits that made it are dropped.
pub proof fn handles_die_with_their_operation(
    before: ContextView,
    after: ContextView,
    handle: OpHandle,
)
    requires
        before.ir.op(handle.id) is Some,
        handle.generation == before.ir.ops.generation(handle.id.0, before.epoch),
        handle.generation < ERASED,
    ensures
        after.ir.op(handle.id) is None ==> after.ir.ops.generation(handle.id.0, after.epoch)
            != handle.generation,
        after.ir.ops == before.ir.ops.committed_at(before.epoch) && before.ir.ops.wf()
            ==> after.ir.ops.generation(handle.id.0, after.epoch) == handle.generation,
        after.ir.ops == before.ir.ops.discarded() && before.ir.ops.pending(handle.id.0)
            ==> after.ir.ops.generation(handle.id.0, after.epoch) != handle.generation,
{
}

} // verus!

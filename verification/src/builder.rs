//! Assembling an operation before the context stores it.
use vstd::prelude::*;
use crate::attributes::attr_view;
use crate::attributes::named_views;
use crate::attributes::AttrView;
use crate::attributes::AttributeValue;
use crate::attributes::NamedAttribute;
use crate::context::edits::first_position;
use crate::context::edits::NewOp;
use crate::context::Context;
use crate::context::ContextView;
use crate::context::OpHandle;
use crate::ids::OpId;
use crate::ids::OpNameId;
use crate::ids::RegionId;
use crate::ids::TypeId;
use crate::ids::ValueId;
use crate::ir::OpView;
use crate::operation::minted_ids;
use crate::operation::with_op_name;
use crate::operation::with_states;
use crate::operation::NewOpParts;

verus! {

/// An operation under construction.
pub struct OpBuilder {
    pub dialect: &'static str,
    pub name: &'static str,
    pub operands: Vec<ValueId>,
    /// How many operands each group appended so far holds.
    pub groups: Vec<usize>,
    pub result_types: Vec<TypeId>,
    pub regions: Vec<RegionId>,
    pub attributes: Vec<NamedAttribute>,
    pub dep_operands: Vec<ValueId>,
    pub dep_results: usize,
}

/// What an operation under construction says.
pub ghost struct BuilderView {
    pub identity: (Seq<char>, Seq<char>),
    pub operands: Seq<ValueId>,
    pub groups: Seq<usize>,
    pub result_types: Seq<TypeId>,
    pub regions: Seq<RegionId>,
    pub attributes: Seq<(Seq<char>, AttrView)>,
    pub dep_operands: Seq<ValueId>,
    pub dep_results: nat,
}

impl View for OpBuilder {
    type V = BuilderView;

    open spec fn view(&self) -> BuilderView {
        BuilderView {
            identity: (self.dialect@, self.name@),
            operands: self.operands@,
            groups: self.groups@,
            result_types: self.result_types@,
            regions: self.regions@,
            attributes: named_views(self.attributes@),
            dep_operands: self.dep_operands@,
            dep_results: self.dep_results as nat,
        }
    }
}

/// The context after one value of each of the first `n` of `types` was minted.
pub open spec fn with_values(context: ContextView, types: Seq<TypeId>, n: nat) -> ContextView
    decreases n,
{
    if n == 0 {
        context
    } else {
        with_values(context, types, (n - 1) as nat).with_value(types[n - 1], None)
    }
}

/// Minting `n` values makes the list of values longer by `n`, and nothing else.
pub proof fn minting_counts(context: ContextView, types: Seq<TypeId>, n: nat)
    ensures
        with_values(context, types, n).ir.values.now.len() == context.ir.values.now.len() + n,
        with_values(context, types, n).names == context.names,
        with_values(context, types, n).ir.ops == context.ir.ops,
        with_values(context, types, n).ir.regions == context.ir.regions,
        with_values(context, types, n).types == context.types,
    decreases n,
{
    if n > 0 {
        minting_counts(context, types, (n - 1) as nat);
    }
}

/// Minting `n` states makes the list of values longer by `n`, and nothing else.
pub proof fn minting_states_counts(context: ContextView, n: nat)
    ensures
        with_states(context, n).ir.values.now.len() == context.ir.values.now.len() + n,
        with_states(context, n).names == context.names,
        with_states(context, n).ir.ops == context.ir.ops,
        with_states(context, n).ir.regions == context.ir.regions,
        with_states(context, n).types == context.types,
    decreases n,
{
    if n > 0 {
        minting_states_counts(context, (n - 1) as nat);
    }
}

impl BuilderView {
    /// A builder that holds nothing yet.
    pub open spec fn fresh(dialect: Seq<char>, name: Seq<char>) -> Self {
        BuilderView {
            identity: (dialect, name),
            operands: Seq::empty(),
            groups: Seq::empty(),
            result_types: Seq::empty(),
            regions: Seq::empty(),
            attributes: Seq::empty(),
            dep_operands: Seq::empty(),
            dep_results: 0,
        }
    }

    pub open spec fn with_attr(self, name: Seq<char>, value: AttrView) -> Self {
        BuilderView { attributes: self.attributes.push((name, value)), ..self }
    }

    pub open spec fn with_group(self, values: Seq<ValueId>) -> Self {
        BuilderView {
            operands: self.operands + values,
            groups: self.groups.push(values.len() as usize),
            ..self
        }
    }

    pub open spec fn with_deps(self, values: Seq<ValueId>) -> Self {
        BuilderView { dep_operands: self.dep_operands + values, ..self }
    }

    pub open spec fn with_result(self, ty: TypeId) -> Self {
        BuilderView { result_types: self.result_types.push(ty), ..self }
    }

    pub open spec fn with_region(self, region: RegionId) -> Self {
        BuilderView { regions: self.regions.push(region), ..self }
    }

    /// With the size of every operand group recorded.
    pub open spec fn with_segments(self) -> Self {
        self.with_attr(
            "operand_segment_sizes"@,
            AttrView::Array(self.groups.map_values(|n: usize| AttrView::UInt(n as nat))),
        )
    }

    /// The context with every result minted and the name interned.
    pub open spec fn minted(self, context: ContextView) -> ContextView {
        with_states(
            with_op_name(
                with_values(context, self.result_types, self.result_types.len()),
                self.identity,
            ),
            self.dep_results,
        )
    }

    /// The operation built.
    pub open spec fn op(self, context: ContextView) -> OpView {
        let first = context.ir.values.now.len();
        let n = self.result_types.len();
        OpView {
            name: OpNameId(
                first_position(self.minted(context).names, self.identity)->0 as u32,
            ),
            operands: self.operands + self.dep_operands,
            results: minted_ids(first, n) + minted_ids(first + n, self.dep_results),
            regions: self.regions,
            dep_operands: self.dep_operands.len() as u16,
            dep_results: self.dep_results as u16,
            attributes: self.attributes,
            parent: None,
        }
    }

    /// The context with the operation built.
    pub open spec fn built(self, context: ContextView) -> ContextView {
        self.minted(context).with_new_op(self.op(context))
    }

    /// The operation built is there, as it was described.
    pub proof fn built_is_there(self, context: ContextView)
        requires
            context.ir.ops.now.len() < u32::MAX,
        ensures
            self.built(context).ir.op(OpId(context.ir.ops.now.len() as u32)) == Some(
                self.op(context),
            ),
    {
        minting_counts(context, self.result_types, self.result_types.len());
        minting_states_counts(
            with_op_name(
                with_values(context, self.result_types, self.result_types.len()),
                self.identity,
            ),
            self.dep_results,
        );
        new_op_is_live(self.minted(context), self.op(context));
    }

    /// Building an operation without regions leaves every region and every other
    /// operation as it was, and what they are spelled and typed with.
    pub proof fn building_keeps(self, context: ContextView)
        requires
            context.ir.ops.now.len() < u32::MAX,
            self.regions.len() == 0,
        ensures
            self.built(context).ir.regions == context.ir.regions,
            self.built(context).ir.blocks == context.ir.blocks,
            self.built(context).types == context.types,
            self.built(context).ir.ops.now.len() == context.ir.ops.now.len() + 1,
            self.built(context).ir.values.now.len() == context.ir.values.now.len()
                + self.result_types.len() + self.dep_results,
            self.built(context).names == with_op_name(context, self.identity).names,
            forall|id: OpId|
                id.0 < context.ir.ops.now.len() ==> (#[trigger] self.built(context).ir.op(id))
                    == context.ir.op(id),
    {
        let n = self.result_types.len();
        minting_counts(context, self.result_types, n);
        let named = with_op_name(with_values(context, self.result_types, n), self.identity);
        minting_states_counts(named, self.dep_results);
        minting_keeps_blocks(context, self.result_types, n);
        minting_states_keeps_blocks(named, self.dep_results);
        let minted = self.minted(context);
        let op = self.op(context);
        new_op_is_live(minted, op);
        let id = OpId(minted.ir.ops.now.len() as u32);
        let added = minted.ir.add_op(op);
        defining_keeps(added, op.results, id, op.results.len());
        assert forall|id: OpId| id.0 < context.ir.ops.now.len() implies (
        #[trigger] self.built(context).ir.op(id)) == context.ir.op(id) by {
            assert(minted.with_new_op(op).ir.op(id) == minted.ir.op(id));
        }
    }

    /// Whether the context has room for the operation, and what it names is
    /// there.
    pub open spec fn fits(self, context: ContextView) -> bool {
        &&& context.names.len() < u32::MAX
        &&& context.ir.ops.now.len() < u32::MAX
        &&& context.ir.values.now.len() + self.result_types.len() + self.dep_results <= u32::MAX
        &&& self.dep_operands.len() <= u16::MAX
        &&& self.dep_results <= u16::MAX
        &&& forall|i: int|
            0 <= i < self.operands.len() ==> (#[trigger] self.operands[i]).0 < u32::MAX
        &&& forall|i: int|
            0 <= i < self.dep_operands.len() ==> (#[trigger] self.dep_operands[i]).0 < u32::MAX
        &&& forall|i: int|
            0 <= i < self.regions.len() ==> context.ir.region(#[trigger] self.regions[i]) is Some
    }
}

impl OpBuilder {
    /// A builder of the op spelled `dialect.name`.
    pub fn new(dialect: &'static str, name: &'static str) -> (r: Self)
        ensures
            r@ == BuilderView::fresh(dialect@, name@),
    {
        let r = OpBuilder {
            dialect,
            name,
            operands: Vec::new(),
            groups: Vec::new(),
            result_types: Vec::new(),
            regions: Vec::new(),
            attributes: Vec::new(),
            dep_operands: Vec::new(),
            dep_results: 0,
        };
        assert(r@.attributes =~= Seq::empty());
        assert(r@ == BuilderView::fresh(dialect@, name@));
        r
    }

    /// With an attribute after the others.
    pub fn attr(self, name: &str, value: AttributeValue) -> (r: Self)
        ensures
            r@ == self@.with_attr(name@, value@),
    {
        let mut r = self;
        let ghost held = named_views(r.attributes@);
        let added = NamedAttribute::new(name, value);
        let ghost view = added@;
        r.attributes.push(added);
        assert(named_views(r.attributes@) =~= held.push(view));
        r
    }

    /// With one more group of operands.
    pub fn operands(self, values: Vec<ValueId>) -> (r: Self)
        ensures
            r@ == self@.with_group(values@),
    {
        let mut r = self;
        let mut more = values;
        let ghost held = r.operands@;
        let ghost added = more@;
        r.groups.push(more.len());
        r.operands.append(&mut more);
        assert(r.operands@ =~= held + added);
        r
    }

    /// With one more group that is one operand.
    pub fn operand(self, value: ValueId) -> (r: Self)
        ensures
            r@ == self@.with_group(seq![value]),
    {
        let mut values: Vec<ValueId> = Vec::new();
        values.push(value);
        assert(values@ =~= seq![value]);
        self.operands(values)
    }

    /// With more dependencies observed.
    pub fn dep_operands(self, values: Vec<ValueId>) -> (r: Self)
        ensures
            r@ == self@.with_deps(values@),
    {
        let mut r = self;
        let mut more = values;
        let ghost held = r.dep_operands@;
        let ghost added = more@;
        r.dep_operands.append(&mut more);
        assert(r.dep_operands@ =~= held + added);
        r
    }

    /// With one more result.
    pub fn result_type(self, ty: TypeId) -> (r: Self)
        ensures
            r@ == self@.with_result(ty),
    {
        let mut r = self;
        r.result_types.push(ty);
        r
    }

    /// With one more region.
    pub fn region(self, region: RegionId) -> (r: Self)
        ensures
            r@ == self@.with_region(region),
    {
        let mut r = self;
        r.regions.push(region);
        r
    }

    /// With the size of every operand group recorded, for an op whose groups
    /// vary.
    pub fn segments(self) -> (r: Self)
        ensures
            r@ == self@.with_segments(),
    {
        let mut items: Vec<AttributeValue> = Vec::new();
        let mut i: usize = 0;
        while i < self.groups.len()
            invariant
                i <= self.groups.len(),
                items.len() == i,
                forall|k: int|
                    0 <= k < i ==> attr_view(#[trigger] items@[k]) == AttrView::UInt(
                        self.groups@[k] as nat,
                    ),
            decreases self.groups.len() - i,
        {
            items.push(AttributeValue::UInt(self.groups[i] as u64));
            i += 1;
        }
        let value = AttributeValue::Array(items);
        assert(attr_view(value)->Array_0 =~= self@.groups.map_values(
            |n: usize| AttrView::UInt(n as nat),
        ));
        self.attr("operand_segment_sizes", value)
    }

    /// Mints the results and stores the operation.
    pub fn build(self, context: &mut Context) -> (h: OpHandle)
        requires
            old(context).inv(),
            self@.fits(old(context)@),
        ensures
            final(context).inv(),
            final(context)@ == self@.built(old(context)@),
            h.id == OpId(old(context)@.ir.ops.now.len() as u32),
            final(context)@.ir.op(h.id) == Some(self@.op(old(context)@)),
    {
        let ghost view = self@;
        let ghost before = context@;
        let ghost first = before.ir.values.now.len();
        let mut results: Vec<ValueId> = Vec::new();
        let mut i: usize = 0;
        assert(results@ =~= minted_ids(first, 0));
        while i < self.result_types.len()
            invariant
                i <= self.result_types.len(),
                context.inv(),
                view == self@,
                view.fits(before),
                first == before.ir.values.now.len(),
                context@ == with_values(before, self.result_types@, i as nat),
                results@ =~= minted_ids(first, i as nat),
            decreases self.result_types.len() - i,
        {
            proof {
                minting_counts(before, self.result_types@, i as nat);
            }
            let value = context.create_value(self.result_types[i], None);
            results.push(value.id);
            i += 1;
        }
        proof {
            minting_counts(before, self.result_types@, i as nat);
        }
        let ghost with_results = context@;
        let op = NewOp::new(
            (self.dialect, self.name),
            context,
            self.operands,
            results,
            self.regions,
            NewOpParts {
                attributes: self.attributes,
                dep_operands: self.dep_operands,
                dep_results: self.dep_results,
            },
        );
        proof {
            minting_states_counts(
                with_op_name(with_results, view.identity),
                view.dep_results,
            );
            assert(context@ == view.minted(before));
            assert(op.operands@ == view.operands + view.dep_operands);
            assert forall|k: int| 0 <= k < op.operands@.len() implies (#[trigger] op.operands@[k]).0
                < u32::MAX by {
                if k < view.operands.len() {
                    assert(op.operands@[k] == view.operands[k]);
                } else {
                    assert(op.operands@[k] == view.dep_operands[k - view.operands.len()]);
                }
            }
            assert forall|k: int| 0 <= k < op.regions@.len() implies context@.ir.region(
                #[trigger] op.regions@[k],
            ) is Some by {
                assert(before.ir.region(view.regions[k]) is Some);
            }
        }
        let ghost minted = context@;
        let id = context.add_operation(op);
        proof {
            new_op_is_live(minted, view.op(before));
        }
        context.get_op(id)
    }
}

proof fn minting_keeps_blocks(context: ContextView, types: Seq<TypeId>, n: nat)
    ensures
        with_values(context, types, n).ir.blocks == context.ir.blocks,
    decreases n,
{
    if n > 0 {
        minting_keeps_blocks(context, types, (n - 1) as nat);
    }
}

proof fn minting_states_keeps_blocks(context: ContextView, n: nat)
    ensures
        with_states(context, n).ir.blocks == context.ir.blocks,
    decreases n,
{
    if n > 0 {
        minting_states_keeps_blocks(context, (n - 1) as nat);
    }
}

/// A new operation is there.
pub proof fn new_op_is_live(context: ContextView, op: OpView)
    requires
        context.ir.ops.now.len() < u32::MAX,
    ensures
        context.with_new_op(op).ir.op(OpId(context.ir.ops.now.len() as u32)) == Some(op),
        forall|id: OpId|
            id.0 < context.ir.ops.now.len() ==> (#[trigger] context.with_new_op(op).ir.op(id))
                == context.ir.op(id),
        context.with_new_op(op).ir.ops.now.len() == context.ir.ops.now.len() + 1,
        context.with_new_op(op).ir.values.now.len() == context.ir.values.now.len(),
        context.with_new_op(op).ir.blocks == context.ir.blocks,
        context.with_new_op(op).names == context.names,
        context.with_new_op(op).types == context.types,
        context.with_new_op(op).ir.regions.now.len() == context.ir.regions.now.len(),
{
    let id = OpId(context.ir.ops.now.len() as u32);
    let added = context.ir.add_op(op);
    defining_keeps(added, op.results, id, op.results.len());
    let defined = crate::context::edits::results_defined(added, op.results, id, op.results.len());
    owning_keeps(defined, op.regions, id, op.regions.len());
}

proof fn defining_keeps(ir: crate::ir::IrView, results: Seq<ValueId>, op: OpId, n: nat)
    ensures
        crate::context::edits::results_defined(ir, results, op, n).ops == ir.ops,
        crate::context::edits::results_defined(ir, results, op, n).blocks == ir.blocks,
        crate::context::edits::results_defined(ir, results, op, n).regions == ir.regions,
        crate::context::edits::results_defined(ir, results, op, n).values.now.len()
            == ir.values.now.len(),
    decreases n,
{
    if n > 0 {
        defining_keeps(ir, results, op, (n - 1) as nat);
    }
}

proof fn owning_keeps(ir: crate::ir::IrView, regions: Seq<RegionId>, op: OpId, n: nat)
    ensures
        crate::context::edits::regions_owned(ir, regions, op, n).ops == ir.ops,
        crate::context::edits::regions_owned(ir, regions, op, n).blocks == ir.blocks,
        crate::context::edits::regions_owned(ir, regions, op, n).values == ir.values,
        crate::context::edits::regions_owned(ir, regions, op, n).regions.now.len()
            == ir.regions.now.len(),
    decreases n,
{
    if n > 0 {
        owning_keeps(ir, regions, op, (n - 1) as nat);
    }
}

} // verus!

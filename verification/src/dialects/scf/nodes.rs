//! Loops and gates whose bindings are declared.
//!
//! A loop (θ) takes every carried value in as a port, and its body names the
//! predicate, the values the next iteration carries, then the values the loop
//! produces once the predicate is false. A switch (γ) runs the arm its predicate
//! names, and the last arm for a predicate past it, so every predicate picks one.
//! A counted loop is a θ whose port 0 is the counter, tested with `cmpi slt` and
//! advanced with `addi`, and whose exit values are its ports. The text elides
//! what that shape pins, and [`materialize_counted_shape`] puts it back.
use vstd::prelude::*;
use crate::attributes::AttrView;
use crate::attributes::AttributeValue;
use crate::attributes::Predicate;
use crate::binding::declared;
use crate::binding::operand_segments;
use crate::binding::segments;
use crate::builder::BuilderView;
use crate::builder::OpBuilder;
use crate::context::edits::first_position;
use crate::context::edits::op_placed;
use crate::context::Context;
use crate::context::ContextView;
use crate::context::OpHandle;
use crate::dialects::builtin::control::operand_slice;
use crate::dialects::scf::counter_failure;
use crate::dialects::scf::inits_failure;
use crate::dialects::scf::verify_counter_type;
use crate::dialects::scf::verify_inits;
use crate::dialects::scf::verify_latch;
use crate::error::either;
use crate::error::invalid;
use crate::error::verdict;
use crate::error::Error;
use crate::ids::OpId;
use crate::ids::RegionId;
use crate::ids::TypeId;
use crate::ids::ValueId;
use crate::interfaces::Binding;
use crate::interfaces::CountedLoop;
use crate::interfaces::ExitScope;
use crate::interfaces::ExitScopeKind;
use crate::interfaces::Gamma;
use crate::interfaces::Theta;
use crate::ir::copy_list;
use crate::ir::Parent;
use crate::lists::MAX_IDS;
use crate::text::cat4;
use crate::text::cat5;
use crate::text::decimal;
use crate::text::decimal_string;
use crate::ty::interned;
use crate::ty::IntegerType;
use crate::ty::Type;
use crate::ty::TypeView;

verus! {

/// A loop that runs until its predicate is false.
#[derive(Debug, Clone, Copy)]
pub struct LoopOp(pub OpHandle);

/// A gate that runs the arm its predicate names.
#[derive(Debug, Clone, Copy)]
pub struct SwitchOp(pub OpHandle);

/// A counted loop.
#[derive(Debug, Clone, Copy)]
pub struct ForOp(pub OpHandle);

impl ContextView {
    /// Whether a loop or a gate can be read: it records its operand groups and
    /// owns a live region.
    pub open spec fn carrier_wf(self, op: OpId) -> bool {
        &&& self.readable(op)
        &&& self.groups_recorded(op)
        &&& self.carried_operands(op).0 <= self.carried_operands(op).1 <= self.ir.op(
            op,
        )->0.operands.len()
        &&& self.ir.op(op)->0.regions.len() > 0
        &&& self.ir.region(self.ir.op(op)->0.regions[0]) is Some
        &&& self.region_sound(self.ir.op(op)->0.regions[0])
    }

    /// The operand a counted loop counts up to, group 2 of its operands, or
    /// counts by, group 3.
    pub open spec fn for_operand(self, op: OpId, group: int) -> ValueId {
        self.ir.op(op)->0.operands[segments(self.ir.op(op)->0.attributes, 4)[group].0 as int]
    }

    /// Whether a counted loop can be read.
    pub open spec fn for_wf(self, op: OpId) -> bool {
        let groups = segments(self.ir.op(op)->0.attributes, 4);
        &&& self.carrier_wf(op)
        &&& self.carrier(op) == Some(crate::binding::Carrier::For)
        &&& groups.len() >= 4
        &&& groups[2].0 < self.ir.op(op)->0.operands.len()
        &&& groups[3].0 < self.ir.op(op)->0.operands.len()
        &&& self.carried_operands(op).0 < self.carried_operands(op).1
        &&& self.values_typed(self.ir.op(op)->0.operands)
        &&& self.latch_wf(self.ir.op(op)->0.regions[0])
    }

    /// What a counted loop carries in: the counter's start, then its inits.
    pub open spec fn for_inits(self, op: OpId) -> Seq<ValueId> {
        self.ir.op(op)->0.operands.subrange(
            self.carried_operands(op).0 as int,
            self.carried_operands(op).1 as int,
        )
    }

    /// Why a counted loop whose body is still a block list is wrong.
    pub open spec fn ordered_body_failure(self, op: OpId) -> Option<Seq<char>> {
        let body = self.ir.op(op)->0.regions[0];
        let ports = self.region_ports(body);
        let inits = self.for_inits(op);
        if self.is_nodes(body) {
            None
        } else if ports.len() != inits.len() {
            Some(
                "scf.for takes "@ + decimal(inits.len())
                    + " initial values but its body carries "@ + decimal(ports.len())
                    + " ports"@,
            )
        } else {
            either(
                inits_failure(self, "scf.for"@, ports, inits, 0),
                self.latch_failure(
                    "scf.for"@,
                    "an ordered scf.for body must end in scf.yield"@,
                    body,
                    ports,
                    self.value_results(op).len(),
                ),
            )
        }
    }

    /// Why a counted loop is wrong.
    pub open spec fn for_failure(self, op: OpId) -> Option<Seq<char>> {
        either(
            counter_failure(
                self,
                "scf.for"@,
                self.for_inits(op)[0],
                self.for_operand(op, 2),
                self.for_operand(op, 3),
            ),
            self.ordered_body_failure(op),
        )
    }
}

fn binding_of(context: &Context, op: OpId) -> (b: Binding)
    requires
        context.inv(),
        context@.carrier_wf(op),
        context@.carrier(op) is Some,
    ensures
        b == context@.binding(op),
{
    declared(context, op).unwrap()
}

impl Theta for LoopOp {
    open spec fn loops(&self, context: ContextView) -> bool {
        context.carrier_wf(self.0.id) && context.carrier(self.0.id) == Some(
            crate::binding::Carrier::Loop,
        )
    }

    open spec fn body_region(&self, context: ContextView) -> RegionId {
        context.ir.op(self.0.id)->0.regions[0]
    }

    open spec fn carries(&self, context: ContextView) -> Binding {
        context.binding(self.0.id)
    }

    fn body(&self, context: &Context) -> (r: RegionId) {
        context.regions_of(self.0.id)[0]
    }

    fn carried(&self, context: &Context) -> (b: Binding) {
        binding_of(context, self.0.id)
    }

    open spec fn decider(&self, context: ContextView) -> Option<ValueId> {
        let results = context.region_results(context.ir.op(self.0.id)->0.regions[0]);
        if results.len() > 0 {
            Some(results[0])
        } else {
            None
        }
    }

    fn predicate(&self, context: &Context) -> (v: ValueId) {
        let body = context.regions_of(self.0.id)[0];
        context.region_results(body)[0]
    }
}

impl ExitScope for LoopOp {
    open spec fn scope_kind(&self) -> ExitScopeKind {
        ExitScopeKind::Loop
    }

    fn exit_scope(&self) -> (k: ExitScopeKind) {
        ExitScopeKind::Loop
    }
}

impl Gamma for SwitchOp {
    open spec fn selects(&self, context: ContextView) -> bool {
        context.carrier_wf(self.0.id) && context.carrier(self.0.id) == Some(
            crate::binding::Carrier::Switch,
        ) && context.ir.op(self.0.id)->0.operands.len() > 0
    }

    open spec fn choice(&self, context: ContextView) -> ValueId {
        context.ir.op(self.0.id)->0.operands[0]
    }

    open spec fn arm_regions(&self, context: ContextView) -> Seq<RegionId> {
        context.ir.op(self.0.id)->0.regions
    }

    open spec fn handed(&self, context: ContextView) -> Binding {
        context.binding(self.0.id)
    }

    fn predicate(&self, context: &Context) -> (v: ValueId) {
        context.operands_of(self.0.id)[0]
    }

    fn arms(&self, context: &Context) -> (r: Vec<RegionId>) {
        copy_list(context.regions_of(self.0.id))
    }

    fn forwarded(&self, context: &Context) -> (b: Binding) {
        binding_of(context, self.0.id)
    }
}

impl ExitScope for SwitchOp {
    open spec fn scope_kind(&self) -> ExitScopeKind {
        ExitScopeKind::Switch
    }

    fn exit_scope(&self) -> (k: ExitScopeKind) {
        ExitScopeKind::Switch
    }
}

impl Theta for ForOp {
    open spec fn loops(&self, context: ContextView) -> bool {
        context.carrier_wf(self.0.id) && context.carrier(self.0.id) == Some(
            crate::binding::Carrier::For,
        )
    }

    open spec fn body_region(&self, context: ContextView) -> RegionId {
        context.ir.op(self.0.id)->0.regions[0]
    }

    open spec fn carries(&self, context: ContextView) -> Binding {
        context.binding(self.0.id)
    }

    fn body(&self, context: &Context) -> (r: RegionId) {
        context.regions_of(self.0.id)[0]
    }

    fn carried(&self, context: &Context) -> (b: Binding) {
        binding_of(context, self.0.id)
    }

    open spec fn decider(&self, context: ContextView) -> Option<ValueId> {
        let results = context.region_results(context.ir.op(self.0.id)->0.regions[0]);
        if results.len() > 0 {
            Some(results[0])
        } else {
            None
        }
    }

    fn predicate(&self, context: &Context) -> (v: ValueId) {
        let body = context.regions_of(self.0.id)[0];
        context.region_results(body)[0]
    }
}

impl ExitScope for ForOp {
    open spec fn scope_kind(&self) -> ExitScopeKind {
        ExitScopeKind::Loop
    }

    fn exit_scope(&self) -> (k: ExitScopeKind) {
        ExitScopeKind::Loop
    }
}

fn for_operand(context: &Context, op: OpId, group: usize) -> (v: ValueId)
    requires
        context.inv(),
        context@.for_wf(op),
        2 <= group < 4,
    ensures
        v == context@.for_operand(op, group as int),
{
    let groups = operand_segments(context, op, 4);
    let ghost pairs = groups@.map_values(
        |x: crate::interfaces::IndexRange| crate::binding::as_pair(x),
    );
    assert(pairs[group as int] == crate::binding::as_pair(groups@[group as int]));
    context.operands_of(op)[groups[group].start]
}

impl CountedLoop for ForOp {
    open spec fn counts(&self, context: ContextView) -> bool {
        context.for_wf(self.0.id)
    }

    open spec fn lower(&self, context: ContextView) -> ValueId {
        context.for_inits(self.0.id)[0]
    }

    open spec fn upper(&self, context: ContextView) -> ValueId {
        context.for_operand(self.0.id, 2)
    }

    open spec fn gain(&self, context: ContextView) -> ValueId {
        context.for_operand(self.0.id, 3)
    }

    open spec fn counter_port(&self, context: ContextView) -> Option<usize> {
        Some(0)
    }

    fn lower_bound(&self, context: &Context) -> (v: ValueId) {
        let binding = binding_of(context, self.0.id);
        context.operands_of(self.0.id)[binding.operands.start]
    }

    fn upper_bound(&self, context: &Context) -> (v: ValueId) {
        for_operand(context, self.0.id, 2)
    }

    fn step(&self, context: &Context) -> (v: ValueId) {
        for_operand(context, self.0.id, 3)
    }

    fn induction(&self, context: &Context) -> (r: Option<usize>) {
        Some(0)
    }
}

impl ForOp {
    /// Checks that the loop counts through one type and, while its body is still
    /// a block list, that it carries what its ports say: the counter enters as
    /// port 0 and every other port takes an init, and the body's `scf.yield`
    /// names the next value of each of those, in the same types. The declared
    /// binding says all this once the body is unordered.
    pub fn verify_impl(&self, context: &Context) -> (r: Result<(), Error>)
        requires
            context.inv(),
            context@.for_wf(self.0.id),
        ensures
            verdict(r, context@.for_failure(self.0.id)),
    {
        proof {
            let o = context@.ir.op(self.0.id)->0;
            let groups = segments(o.attributes, 4);
            assert(context@.ir.value(o.operands[groups[2].0 as int]) is Some);
            assert(context@.ir.value(o.operands[groups[3].0 as int]) is Some);
            assert(context@.ir.value(o.operands[context@.carried_operands(self.0.id).0 as int]) is Some);
        }
        if let Err(e) = verify_counter_type(
            context,
            "scf.for",
            self.lower_bound(context),
            self.upper_bound(context),
            self.step(context),
        ) {
            return Err(e);
        }
        let body = context.regions_of(self.0.id)[0];
        if context.region_is_nodes(body) {
            return Ok(());
        }
        let ports = context.region_ports(body);
        let binding = binding_of(context, self.0.id);
        let inits = operand_slice(context, self.0.id, binding.operands.start, binding.operands.end);
        if ports.len() != inits.len() {
            let message = cat5(
                "scf.for takes ",
                decimal_string(inits.len() as u64).as_str(),
                " initial values but its body carries ",
                decimal_string(ports.len() as u64).as_str(),
                " ports",
            );
            return Err(invalid(message.as_str()));
        }
        proof {
            let all = context@.ir.op(self.0.id)->0.operands;
            assert forall|i: int| 0 <= i < inits@.len() implies context@.ir.value(
                #[trigger] inits@[i],
            ) is Some && context@.value_sound(inits@[i]) by {
                assert(inits@[i] == all[i + binding.operands.start]);
            }
        }
        if let Err(e) = verify_inits(context, "scf.for", &ports, &inits, 0) {
            return Err(e);
        }
        let results: usize = self.0.value_results(context).len();
        verify_latch(
            context,
            "scf.for",
            "an ordered scf.for body must end in scf.yield",
            body,
            &ports,
            results,
        )
    }
}

impl ContextView {
    /// Whether `op` is the builtin operation `name` over `a` and `b`, with the
    /// comparison `predicate` where it is one.
    pub open spec fn spells(
        self,
        op: OpId,
        name: Seq<char>,
        predicate: Option<Predicate>,
        a: ValueId,
        b: ValueId,
    ) -> bool {
        &&& self.is_op(op, "builtin"@, name)
        &&& match predicate {
            Some(p) => self.attr(op, "predicate"@) == Some(AttrView::Predicate(p)),
            None => true,
        }
        &&& self.ir.op(op)->0.operands == seq![a, b]
    }

    /// The first of the first `n` of `ops` that spells it.
    pub open spec fn spelled_by(
        self,
        ops: Seq<OpId>,
        name: Seq<char>,
        predicate: Option<Predicate>,
        a: ValueId,
        b: ValueId,
        n: int,
    ) -> Option<OpId>
        decreases n,
    {
        if n <= 0 {
            None
        } else {
            match self.spelled_by(ops, name, predicate, a, b, n - 1) {
                Some(op) => Some(op),
                None => if self.spells(ops[n - 1], name, predicate, a, b) {
                    Some(ops[n - 1])
                } else {
                    None
                },
            }
        }
    }

    /// Whether every operation of an unordered region can be read and has a
    /// result where it spells something.
    pub open spec fn nodes_readable(self, region: RegionId) -> bool {
        let ops = self.node_ops(region);
        &&& self.is_nodes(region)
        &&& forall|i: int|
            0 <= i < ops.len() ==> self.readable(#[trigger] ops[i]) && ops[i].0
                < self.ir.ops.now.len()
    }

    /// With an operation put into an unordered region.
    pub open spec fn with_node(self, region: RegionId, op: OpId) -> Self {
        let held = self.with_nodes(
            region,
            self.node_ports(region),
            self.node_ops(region).push(op),
            self.node_results(region),
        );
        held.with_ir(op_placed(held.ir, op, Some(Parent::Region(region)))).reported_region(region)
    }

    /// With the type of a one-bit integer interned.
    pub open spec fn with_bit_type(self) -> Self {
        ContextView { types: interned(self.types, TypeView::Integer(1)), ..self }
    }
}

fn find_spelling(
    context: &Context,
    ops: &Vec<OpId>,
    name: &str,
    predicate: Option<Predicate>,
    a: ValueId,
    b: ValueId,
) -> (r: Option<OpId>)
    requires
        context.inv(),
        forall|i: int| 0 <= i < ops@.len() ==> context@.readable(#[trigger] ops@[i]),
    ensures
        r == context@.spelled_by(ops@, name@, predicate, a, b, ops@.len() as int),
        r is Some ==> context@.spells(r->0, name@, predicate, a, b) && ops@.contains(r->0),
{
    let ghost view = context@;
    let mut i: usize = 0;
    while i < ops.len()
        invariant
            context.inv(),
            view == context@,
            i <= ops.len(),
            forall|i: int| 0 <= i < ops@.len() ==> view.readable(#[trigger] ops@[i]),
            view.spelled_by(ops@, name@, predicate, a, b, i as int) is None,
        decreases ops.len() - i,
    {
        let op = ops[i];
        assert(view.readable(ops@[i as int]));
        let handle = context.get_op(op);
        let operands = context.operands_of(op);
        let over = operands.len() == 2 && operands[0] == a && operands[1] == b;
        proof {
            let held = view.ir.op(op)->0.operands;
            if over {
                assert(held =~= seq![a, b]);
            } else if held == seq![a, b] {
                assert(held[0] == a && held[1] == b);
            }
        }
        let said = match predicate {
            Some(p) => match context.with_attr(op, "predicate") {
                Some(AttributeValue::Predicate(q)) => *q == p,
                _ => false,
            },
            None => true,
        };
        if over && said && handle.is_name(context, "builtin", name) {
            assert(view.spells(ops@[i as int], name@, predicate, a, b));
            proof {
                spelling_stays(view, ops@, name@, predicate, a, b, i + 1, ops@.len() as int);
            }
            return Some(op);
        }
        i += 1;
    }
    None
}

proof fn spelling_stays(
    context: ContextView,
    ops: Seq<OpId>,
    name: Seq<char>,
    predicate: Option<Predicate>,
    a: ValueId,
    b: ValueId,
    n: int,
    m: int,
)
    requires
        context.spelled_by(ops, name, predicate, a, b, n) is Some,
        n <= m,
    ensures
        context.spelled_by(ops, name, predicate, a, b, m) == context.spelled_by(
            ops,
            name,
            predicate,
            a,
            b,
            n,
        ),
    decreases m,
{
    if n < m {
        spelling_stays(context, ops, name, predicate, a, b, n, m - 1);
    }
}

/// What a comparison of `a` with `b` is built from.
pub open spec fn less_view(a: ValueId, b: ValueId, ty: TypeId) -> BuilderView {
    BuilderView::fresh("builtin"@, "cmpi"@).with_group(seq![a]).with_group(seq![b]).with_attr(
        "predicate"@,
        AttrView::Predicate(Predicate::Slt),
    ).with_result(ty)
}

/// What a sum of `a` and `b` is built from.
pub open spec fn sum_view(a: ValueId, b: ValueId, ty: TypeId) -> BuilderView {
    BuilderView::fresh("builtin"@, "addi"@).with_group(seq![a]).with_group(seq![b]).with_result(ty)
}

/// The id a one-bit integer type has.
pub open spec fn bit_type(context: ContextView) -> TypeId {
    TypeId(first_position(context.with_bit_type().types, TypeView::Integer(1))->0 as u32)
}

/// The context whose region `body` compares the counter with its bound, and the
/// value of the comparison: the one the body spells, or a new one.
pub open spec fn with_compare(
    context: ContextView,
    body: RegionId,
    counter: ValueId,
    bound: ValueId,
) -> (ContextView, ValueId) {
    let ops = context.node_ops(body);
    match context.spelled_by(
        ops,
        "cmpi"@,
        Some(Predicate::Slt),
        counter,
        bound,
        ops.len() as int,
    ) {
        Some(op) => (context, context.ir.op(op)->0.results[0]),
        None => {
            let view = less_view(counter, bound, bit_type(context));
            let typed = context.with_bit_type();
            (
                view.built(typed).with_node(body, OpId(typed.ir.ops.now.len() as u32)),
                view.op(typed).results[0],
            )
        },
    }
}

/// The context whose region `body` advances the counter by the step, and the
/// value of the sum: the one the body spells, or a new one.
pub open spec fn with_advance(
    context: ContextView,
    body: RegionId,
    counter: ValueId,
    step: ValueId,
    ty: TypeId,
) -> (ContextView, ValueId) {
    let ops = context.node_ops(body);
    match context.spelled_by(ops, "addi"@, None, counter, step, ops.len() as int) {
        Some(op) => (context, context.ir.op(op)->0.results[0]),
        None => {
            let view = sum_view(counter, step, ty);
            (
                view.built(context).with_node(body, OpId(context.ir.ops.now.len() as u32)),
                view.op(context).results[0],
            )
        },
    }
}

/// Whether a context has room for two more operations with one result each and
/// one more type.
pub open spec fn room_for_shape(context: ContextView) -> bool {
    &&& context.types.len() < u32::MAX
    &&& context.names.len() + 1 < u32::MAX
    &&& context.ir.ops.now.len() + 1 < u32::MAX
    &&& context.ir.values.now.len() + 2 <= u32::MAX
}

/// Builds an operation and puts it into an unordered region.
fn place_built(context: &mut Context, builder: OpBuilder, body: RegionId) -> (v: ValueId)
    requires
        old(context).inv(),
        builder@.fits(old(context)@),
        builder@.regions.len() == 0,
        builder@.result_types.len() == 1,
        builder@.dep_results == 0,
        builder@.dep_operands.len() == 0,
        builder@.operands.len() <= MAX_IDS,
        old(context)@.nodes_readable(body),
    ensures
        final(context).inv(),
        final(context)@ == builder@.built(old(context)@).with_node(
            body,
            OpId(old(context)@.ir.ops.now.len() as u32),
        ),
        v == builder@.op(old(context)@).results[0],
        final(context)@.nodes_readable(body),
        final(context)@.node_results(body) == old(context)@.node_results(body),
        final(context)@.node_ports(body) == old(context)@.node_ports(body),
        final(context)@.ir.ops.now.len() == old(context)@.ir.ops.now.len() + 1,
        final(context)@.ir.values.now.len() == old(context)@.ir.values.now.len() + 1,
        final(context)@.names.len() <= old(context)@.names.len() + 1,
        final(context)@.types == old(context)@.types,
        final(context)@.node_ops(body) == old(context)@.node_ops(body).push(
            OpId(old(context)@.ir.ops.now.len() as u32),
        ),
        forall|id: OpId|
            id.0 < old(context)@.ir.ops.now.len() ==> (#[trigger] final(context)@.ir.op(id))
                == old(context)@.ir.op(id),
        final(context)@.ir.op(OpId(old(context)@.ir.ops.now.len() as u32))->0.results.len() == 1,
        forall|i: int|
            0 <= i < old(context)@.names.len() ==> (#[trigger] final(context)@.names[i])
                == old(context)@.names[i],
{
    let ghost view = builder@;
    let ghost before = context@;
    proof {
        view.building_keeps(before);
    }
    let handle = builder.build(context);
    let ghost built = context@;
    let v = context.results_of(handle.id)[0];
    context.add(body, handle.id);
    proof {
        let ops = context@.node_ops(body);
        assert(ops == before.node_ops(body).push(handle.id));
        assert forall|id: OpId| id.0 < before.ir.ops.now.len() implies (
        #[trigger] context@.ir.op(id)) == before.ir.op(id) by {
            assert(built.ir.op(id) == before.ir.op(id));
        }
        assert forall|i: int| 0 <= i < ops.len() implies context@.readable(#[trigger] ops[i])
            && ops[i].0 < context@.ir.ops.now.len() by {
            if i < before.node_ops(body).len() {
                assert(before.readable(before.node_ops(body)[i]));
                assert(context@.ir.op(ops[i]) == before.ir.op(ops[i]));
            } else {
                let named = crate::operation::with_op_name(before, view.identity);
                assert(view.minted(before).names == named.names) by {
                    crate::builder::minting_counts(before, view.result_types, 1);
                    crate::builder::minting_states_counts(
                        crate::operation::with_op_name(
                            crate::builder::with_values(before, view.result_types, 1),
                            view.identity,
                        ),
                        0,
                    );
                }
                crate::context::edits::first_position_is_first(named.names, view.identity);
                assert(named.names.contains(view.identity)) by {
                    if !before.names.contains(view.identity) {
                        assert(named.names[before.names.len() as int] == view.identity);
                    }
                }
            }
        }
    }
    v
}

proof fn spelled_is_among(
    context: ContextView,
    ops: Seq<OpId>,
    name: Seq<char>,
    predicate: Option<Predicate>,
    a: ValueId,
    b: ValueId,
    n: int,
)
    requires
        0 <= n <= ops.len(),
    ensures
        match context.spelled_by(ops, name, predicate, a, b, n) {
            Some(op) => ops.contains(op) && context.spells(op, name, predicate, a, b),
            None => true,
        },
    decreases n,
{
    if n > 0 {
        spelled_is_among(context, ops, name, predicate, a, b, n - 1);
        assert(ops.contains(ops[n - 1]));
    }
}

fn ensure_compare(context: &mut Context, body: RegionId, counter: ValueId, bound: ValueId) -> (v:
    ValueId)
    requires
        old(context).inv(),
        old(context)@.nodes_readable(body),
        old(context)@.results_there(body),
        room_for_shape(old(context)@),
        counter.0 < u32::MAX,
        bound.0 < u32::MAX,
    ensures
        final(context).inv(),
        (final(context)@, v) == with_compare(old(context)@, body, counter, bound),
        final(context)@.nodes_readable(body),
        final(context)@.results_there(body),
        final(context)@.node_results(body) == old(context)@.node_results(body),
        final(context)@.node_ports(body) == old(context)@.node_ports(body),
        final(context)@.names.len() < u32::MAX,
        final(context)@.ir.ops.now.len() < u32::MAX,
        final(context)@.ir.values.now.len() + 1 <= u32::MAX,
{
    let ops = context.region_op_ids(body);
    match find_spelling(context, &ops, "cmpi", Some(Predicate::Slt), counter, bound) {
        Some(op) => {
            proof {
                let i = choose|i: int| 0 <= i < ops@.len() && ops@[i] == op;
                assert(context@.is_op(context@.node_ops(body)[i], "builtin"@, "cmpi"@));
            }
            context.results_of(op)[0]
        },
        None => {
            let ghost before = context@;
            let ty = context.get_type_id(Type::Integer(IntegerType { width: 1 }));
            let builder = OpBuilder::new("builtin", "cmpi").operand(counter).operand(bound).attr(
                "predicate",
                AttributeValue::Predicate(Predicate::Slt),
            ).result_type(ty);
            assert(builder@.operands =~= seq![counter, bound]);
            proof {
                let typed = context@;
                assert(typed == before.with_bit_type());
                assert forall|i: int| 0 <= i < typed.node_ops(body).len() implies typed.readable(
                    #[trigger] typed.node_ops(body)[i],
                ) && typed.node_ops(body)[i].0 < typed.ir.ops.now.len() by {
                    assert(before.readable(before.node_ops(body)[i]));
                }
            }
            let v = place_built(context, builder, body);
            proof {
                results_stay_there(before, context@, body);
            }
            v
        },
    }
}

proof fn results_stay_there(before: ContextView, after: ContextView, body: RegionId)
    requires
        before.nodes_readable(body),
        before.results_there(body),
        after.node_ops(body) == before.node_ops(body).push(
            OpId(before.ir.ops.now.len() as u32),
        ),
        forall|id: OpId|
            id.0 < before.ir.ops.now.len() ==> (#[trigger] after.ir.op(id)) == before.ir.op(id),
        after.ir.op(OpId(before.ir.ops.now.len() as u32))->0.results.len() > 0,
        forall|i: int|
            0 <= i < before.names.len() ==> (#[trigger] after.names[i]) == before.names[i],
    ensures
        after.results_there(body),
{
    let ops = after.node_ops(body);
    assert forall|i: int|
        0 <= i < ops.len() && (after.is_op(#[trigger] ops[i], "builtin"@, "cmpi"@) || after.is_op(
            ops[i],
            "builtin"@,
            "addi"@,
        )) implies after.ir.op(ops[i])->0.results.len() > 0 by {
        if i < before.node_ops(body).len() {
            let op = before.node_ops(body)[i];
            assert(before.readable(op));
            assert(after.ir.op(op) == before.ir.op(op));
            assert(after.identity(op) == before.identity(op));
            assert(before.is_op(op, "builtin"@, "cmpi"@) || before.is_op(
                op,
                "builtin"@,
                "addi"@,
            ));
        }
    }
}

impl ContextView {
    /// Whether every comparison and every sum an unordered region holds produces
    /// its value.
    pub open spec fn results_there(self, region: RegionId) -> bool {
        let ops = self.node_ops(region);
        forall|i: int|
            0 <= i < ops.len() && (self.is_op(#[trigger] ops[i], "builtin"@, "cmpi"@) || self.is_op(
                ops[i],
                "builtin"@,
                "addi"@,
            )) ==> self.ir.op(ops[i])->0.results.len() > 0
    }
}

fn ensure_advance(
    context: &mut Context,
    body: RegionId,
    counter: ValueId,
    step: ValueId,
    ty: TypeId,
) -> (v: ValueId)
    requires
        old(context).inv(),
        old(context)@.nodes_readable(body),
        old(context)@.results_there(body),
        old(context)@.names.len() < u32::MAX,
        old(context)@.ir.ops.now.len() < u32::MAX,
        old(context)@.ir.values.now.len() + 1 <= u32::MAX,
        counter.0 < u32::MAX,
        step.0 < u32::MAX,
    ensures
        final(context).inv(),
        (final(context)@, v) == with_advance(old(context)@, body, counter, step, ty),
        final(context)@.is_nodes(body),
        final(context)@.node_results(body) == old(context)@.node_results(body),
        final(context)@.node_ports(body) == old(context)@.node_ports(body),
{
    let ops = context.region_op_ids(body);
    match find_spelling(context, &ops, "addi", None, counter, step) {
        Some(op) => {
            proof {
                let i = choose|i: int| 0 <= i < ops@.len() && ops@[i] == op;
                assert(context@.is_op(context@.node_ops(body)[i], "builtin"@, "addi"@));
            }
            context.results_of(op)[0]
        },
        None => {
            let builder = OpBuilder::new("builtin", "addi").operand(counter).operand(
                step,
            ).result_type(ty);
            assert(builder@.operands =~= seq![counter, step]);
            place_built(context, builder, body)
        },
    }
}

/// What a counted loop's body names once the shape its text elides is back: the
/// comparison, the advanced counter, what the body wrote, the counter and the
/// ports.
pub open spec fn counted_results(
    compare: ValueId,
    advance: ValueId,
    written: Seq<ValueId>,
    counter: ValueId,
    ports: Seq<ValueId>,
) -> Seq<ValueId> {
    seq![compare, advance] + written + seq![counter] + ports
}

/// The context with the shape a counted loop's text elides put back.
pub open spec fn with_counted_shape(
    context: ContextView,
    body: RegionId,
    counter: ValueId,
    bound: ValueId,
    step: ValueId,
    ports: Seq<ValueId>,
) -> ContextView {
    let (compared, compare) = with_compare(context, body, counter, bound);
    let (advanced, advance) = with_advance(compared, body, counter, step, context.type_of(counter));
    advanced.with_nodes(
        body,
        advanced.node_ports(body),
        advanced.node_ops(body),
        counted_results(compare, advance, context.node_results(body), counter, ports),
    ).reported_region(body)
}

/// Puts back what the text leaves out: the comparison and increment the shape
/// pins, unless the body already spells them, and the exit values, which are the
/// ports.
pub fn materialize_counted_shape(
    context: &mut Context,
    body: RegionId,
    counter: ValueId,
    bound: ValueId,
    step: ValueId,
    ports: &Vec<ValueId>,
) -> (r: Result<(), Error>)
    requires
        old(context).inv(),
        old(context)@.nodes_readable(body),
        old(context)@.results_there(body),
        old(context)@.ir.value(counter) is Some,
        room_for_shape(old(context)@),
        counter.0 < u32::MAX,
        bound.0 < u32::MAX,
        step.0 < u32::MAX,
    ensures
        final(context).inv(),
        if old(context)@.node_results(body).len() != ports@.len() {
            &&& verdict(
                r,
                Some(
                    "scf.for carries "@ + decimal(ports@.len()) + " values but its body names "@
                        + decimal(old(context)@.node_results(body).len()),
                ),
            )
            &&& final(context)@ == old(context)@
        } else {
            &&& r is Ok
            &&& final(context)@ == with_counted_shape(
                old(context)@,
                body,
                counter,
                bound,
                step,
                ports@,
            )
        },
{
    let written = context.region_results(body);
    if written.len() != ports.len() {
        let message = cat4(
            "scf.for carries ",
            decimal_string(ports.len() as u64).as_str(),
            " values but its body names ",
            decimal_string(written.len() as u64).as_str(),
        );
        return Err(invalid(message.as_str()));
    }
    let ty = context.get_value(counter).ty;
    let compare = ensure_compare(context, body, counter, bound);
    let advance = ensure_advance(context, body, counter, step, ty);
    let mut results: Vec<ValueId> = Vec::new();
    results.push(compare);
    results.push(advance);
    let mut rest = copy_list(&written);
    results.append(&mut rest);
    results.push(counter);
    let mut last = copy_list(ports);
    results.append(&mut last);
    assert(results@ =~= counted_results(compare, advance, written@, counter, ports@));
    context.set_region_results(body, results);
    Ok(())
}

/// A counted loop's body names its predicate, one value for each port to carry
/// on and one for each to leave with: as many as its binding asks for.
pub proof fn counted_shape_has_its_results(
    compare: ValueId,
    advance: ValueId,
    written: Seq<ValueId>,
    counter: ValueId,
    ports: Seq<ValueId>,
)
    requires
        written.len() == ports.len(),
    ensures
        ({
            let n: int = 1 + ports.len() as int;
            let results = counted_results(compare, advance, written, counter, ports);
            &&& results.len() == 1 + 2 * n
            &&& results[0] == compare
            &&& results.subrange(1, 1 + n) == seq![advance] + written
            &&& results.skip(1 + n) == seq![counter] + ports
        }),
{
    let n: int = 1 + ports.len() as int;
    let results = counted_results(compare, advance, written, counter, ports);
    assert(results.subrange(1, 1 + n) =~= seq![advance] + written);
    assert(results.skip(1 + n) =~= seq![counter] + ports);
}

} // verus!
